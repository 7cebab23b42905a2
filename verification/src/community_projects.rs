//! Community projects: a project owner lists a project as an NFT collection, investors buy the
//! NFTs with xUSD (and may bond native tokens to it), and once the project is funded its
//! holders vote on each milestone. Funds go to the owner milestone by milestone; three rejected
//! milestones end the project and let the holders claim back what is left.
//!
//! The runtime provides the xUSD asset, the native currency with its locks, the NFT
//! collections, the whitelist of accounts that passed KYC and the block number. A dispatchable
//! that fails leaves the pallet as it was (the runtime rolls its own storage back too); the
//! block hook is not transactional and keeps what a failing step did before its error.

use vstd::prelude::*;
use std::collections::{BTreeMap, BTreeSet};
use crate::assignment::AccountId;
use crate::origin::Origin;
use vstd::std_specs::iter::IteratorSpec;

verus! {

/// Amount of the xUSD asset or of the native currency.
pub type Balance = u128;
/// Id of an NFT collection: one per project.
pub type CollectionId = u32;
/// Id of an NFT within its collection.
pub type ItemId = u32;
/// Block number.
pub type BlockNumber = u64;

/// The asset in which NFTs are paid and funds are distributed.
pub const XUSD_ASSET_ID: u32 = 1;
/// The lock under which bonded native tokens are held.
pub const BONDING_LOCK_ID: [u8; 8] = [115, 116, 107, 99, 109, 109, 116, 121];
/// Blocks that a voting period lasts.
pub const VOTING_PERIOD: BlockNumber = 10;
/// The number of voters or holders of a collection cleared at once.
pub const CLEAR_LIMIT: usize = 2000;

/// Details about a project.
#[derive(Debug, Clone, Copy, PartialEq, Eq, Structural)]
pub struct ProjectDetails {
    pub project_owner: AccountId,
    /// The targeted amount of funds that the project aims to collect.
    pub project_price: Balance,
    pub duration: u32,
    pub milestones: u32,
    pub remaining_milestones: u32,
    /// The amount of funds that the project collected.
    pub project_balance: Balance,
    /// The amount of funds that has been collected by bonding.
    pub project_bonding_balance: Balance,
    pub launching_timestamp: BlockNumber,
    pub strikes: u8,
    pub nft_types: u8,
    pub ongoing: bool,
}

/// Details about an ended project.
#[derive(Debug, Clone, Copy, PartialEq, Eq, Structural)]
pub struct EndedProjectDetails {
    pub project_success: bool,
    pub remaining_balance: Balance,
    pub bonding_balance: Balance,
    pub remaining_percentage: u32,
}

/// Details about an NFT.
#[derive(Debug, Clone, Copy, PartialEq, Eq, Structural)]
pub struct NftDetails {
    pub project_owner: AccountId,
    pub price: Balance,
    pub collection_id: CollectionId,
    pub item_id: ItemId,
}

/// A type of NFT offered by a project: its price and how many there are.
#[derive(Debug, Clone, Copy, PartialEq, Eq, Structural)]
pub struct NftDonationTypes {
    pub price: Balance,
    pub amount: u32,
}

/// Vote enum.
#[derive(Debug, Clone, Copy, PartialEq, Eq, Structural)]
pub enum Vote {
    Yes,
    No,
}

/// Voting stats.
#[derive(Debug, Clone, Copy, PartialEq, Eq, Structural)]
pub struct VoteStats {
    pub yes_votes: u64,
    pub no_votes: u64,
}

/// Errors of the pallet.
#[derive(Debug, Clone, Copy, PartialEq, Eq, Structural)]
pub enum Error {
    /// Max amount of listed nfts reached.
    TooManyListedNfts,
    /// Too many nfts for this collection.
    TooManyNfts,
    /// The Nft has not been found.
    NftNotFound,
    /// This index is not taken.
    InvalidIndex,
    /// The buyer doesn't have enough funds.
    NotEnoughFunds,
    /// A collection is unknown.
    UnknownCollection,
    /// Error during type conversion.
    ConversionError,
    /// Maximum amount of projects already exist.
    TooManyProjects,
    /// A user has already voted during a voting period.
    AlreadyVoted,
    /// Maximum amount of voters has been reached.
    TooManyVoters,
    /// No permission.
    InsufficientPermission,
    /// No voting period ongoing.
    NoOngoingVotingPeriod,
    /// This account has no voting power.
    NoFundsRemaining,
    /// Metadata is not the same amount as nft types.
    WrongAmountOfMetadata,
    /// The Duration must be at least one.
    DurationMustBeHigherThanZero,
    /// The target price is impossible to reach.
    PriceCannotBeReached,
    /// User has not passed the kyc.
    UserNotWhitelisted,
    /// Bonding not possible since project is ongoing.
    ProjectOngoing,
    /// There are not enough funds available in the bonding pool.
    NotEnoughBondingFundsAvailable,
    /// A Project can only be financed by 10 percent bonding.
    ProjectCanOnlyHave10PercentBonding,
    /// The nft type does not exist.
    NftTypeNotFound,
    /// There are not enough nfts of this type available.
    NotEnoughNftsAvailable,
    /// The user did not bond any token yet.
    NoBondingYet,
    /// An amount or a period does not fit its type.
    ArithmeticOverflow,
}

/// Why a call failed: an error of this pallet, or one of the runtime.
#[derive(Debug, Clone, Copy, PartialEq, Eq, Structural)]
pub enum DispatchError {
    /// The origin may not make this call.
    BadOrigin,
    /// An error of this pallet.
    Module(Error),
    /// Another error of the runtime, by its index.
    Other(u32),
}

/// Events of the pallet.
#[derive(Debug, Clone, Copy, PartialEq, Eq, Structural)]
pub enum Event {
    /// A new object has been listed on the marketplace.
    ProjectListed { collection_index: CollectionId, seller: AccountId },
    /// A nft has been bought.
    NftBought { collection_index: CollectionId, item_index: ItemId, buyer: AccountId, price: Balance },
    /// Voted on a milestone.
    VotedOnMilestone { collection_index: CollectionId, voter: AccountId, vote: Vote },
    /// A project has been sold out.
    ProjectLaunched { collection_index: CollectionId },
    /// A Voting period has started.
    VotingPeriodStarted { collection_index: CollectionId },
    /// Funds has been sent to the project.
    FundsDestributed { collection_index: CollectionId, owner: AccountId, amount: Balance },
    /// A Milestone period has started.
    MilestonePeriodStarted { collection_id: CollectionId },
    /// The project has been deleted.
    ProjectDeleted { collection_id: CollectionId },
    /// Token got bonded to the project.
    TokenBonded { collection_index: CollectionId, origin: AccountId, amount: Balance },
    TokenRefunded { collection_index: CollectionId, user: AccountId },
    TokenUnbonded { collection_index: CollectionId, user: AccountId },
}

/// What the runtime does for this pallet: NFT collections, the xUSD asset and the native
/// currency with its locks.
pub trait ProjectsRuntime {
    /// The id the next NFT collection gets, if set.
    fn next_collection_id(&self) -> Option<CollectionId>;
    /// Sets the id of the next NFT collection.
    fn set_next_collection_id(&mut self, id: Option<CollectionId>);
    /// Creates `collection`, owned by `owner`, who pays the collection deposit.
    fn create_collection(&mut self, collection: CollectionId, owner: AccountId) -> Result<(), DispatchError>;
    /// Sets the metadata of `collection`, on behalf of `who`.
    fn set_collection_metadata(&mut self, who: AccountId, collection: CollectionId, data: &Vec<u8>) -> Result<(), DispatchError>;
    /// Mints `item` of `collection` for `owner`.
    fn mint(&mut self, collection: CollectionId, item: ItemId, owner: AccountId) -> Result<(), DispatchError>;
    /// Sets the metadata of `item` of `collection`, on behalf of `who`.
    fn set_metadata(&mut self, who: AccountId, collection: CollectionId, item: ItemId, data: &Vec<u8>) -> Result<(), DispatchError>;
    /// Clears the team of `collection`, on behalf of `who`.
    fn set_team(&mut self, who: AccountId, collection: CollectionId) -> Result<(), DispatchError>;
    /// Transfers `item` of `collection` to `to`.
    fn transfer_nft(&mut self, collection: CollectionId, item: ItemId, to: AccountId) -> Result<(), DispatchError>;
    /// Burns `item` of `collection`.
    fn burn(&mut self, collection: CollectionId, item: ItemId) -> Result<(), DispatchError>;
    /// Transfers `amount` of `asset` from `from` to `to`.
    fn transfer_asset(&mut self, asset: u32, from: AccountId, to: AccountId, amount: Balance) -> Result<(), DispatchError>;
    /// The free native balance of `who`.
    fn free_balance(&self, who: AccountId) -> Balance;
    /// Transfers `amount` of native currency from `from` to `to`, keeping `from` alive.
    fn transfer_native(&mut self, from: AccountId, to: AccountId, amount: Balance) -> Result<(), DispatchError>;
    /// Locks `amount` of the native balance of `who` under `id`.
    fn set_lock(&mut self, id: [u8; 8], who: AccountId, amount: Balance);
    /// Removes the lock `id` of `who`.
    fn remove_lock(&mut self, id: [u8; 8], who: AccountId);
}

/// A call the pallet made to the runtime, with what the runtime answered.
pub enum ProjectsCall {
    FreeBalance { who: AccountId, balance: Balance },
    TransferAsset { asset: u32, from: AccountId, to: AccountId, amount: Balance, result: Result<(), DispatchError> },
    TransferNative { from: AccountId, to: AccountId, amount: Balance, result: Result<(), DispatchError> },
    SetLock { id: [u8; 8], who: AccountId, amount: Balance },
    RemoveLock { id: [u8; 8], who: AccountId },
    NextCollectionId { id: Option<CollectionId> },
    SetNextCollectionId { id: Option<CollectionId> },
    CreateCollection { collection: CollectionId, owner: AccountId, result: Result<(), DispatchError> },
    Mint { collection: CollectionId, item: ItemId, owner: AccountId, result: Result<(), DispatchError> },
    TransferNft { collection: CollectionId, item: ItemId, to: AccountId, result: Result<(), DispatchError> },
    Burn { collection: CollectionId, item: ItemId, result: Result<(), DispatchError> },
    SetCollectionMetadata { who: AccountId, collection: CollectionId, data: Vec<u8>, result: Result<(), DispatchError> },
    SetMetadata { who: AccountId, collection: CollectionId, item: ItemId, data: Vec<u8>, result: Result<(), DispatchError> },
    SetTeam { who: AccountId, collection: CollectionId, result: Result<(), DispatchError> },
}

/// What the runtime answered to `c`, for a call that can be refused.
pub open spec fn answer(c: ProjectsCall) -> Option<Result<(), DispatchError>> {
    match c {
        ProjectsCall::TransferAsset { result, .. } => Some(result),
        ProjectsCall::TransferNative { result, .. } => Some(result),
        ProjectsCall::CreateCollection { result, .. } => Some(result),
        ProjectsCall::Mint { result, .. } => Some(result),
        ProjectsCall::TransferNft { result, .. } => Some(result),
        ProjectsCall::Burn { result, .. } => Some(result),
        ProjectsCall::SetCollectionMetadata { result, .. } => Some(result),
        ProjectsCall::SetMetadata { result, .. } => Some(result),
        ProjectsCall::SetTeam { result, .. } => Some(result),
        _ => None,
    }
}

/// The call `c` with the answer `r` in place of its own.
pub open spec fn with_answer(c: ProjectsCall, r: Result<(), DispatchError>) -> ProjectsCall {
    match c {
        ProjectsCall::TransferAsset { asset, from, to, amount, .. } => ProjectsCall::TransferAsset { asset, from, to, amount, result: r },
        ProjectsCall::TransferNative { from, to, amount, .. } => ProjectsCall::TransferNative { from, to, amount, result: r },
        ProjectsCall::CreateCollection { collection, owner, .. } => ProjectsCall::CreateCollection { collection, owner, result: r },
        ProjectsCall::Mint { collection, item, owner, .. } => ProjectsCall::Mint { collection, item, owner, result: r },
        ProjectsCall::TransferNft { collection, item, to, .. } => ProjectsCall::TransferNft { collection, item, to, result: r },
        ProjectsCall::Burn { collection, item, .. } => ProjectsCall::Burn { collection, item, result: r },
        ProjectsCall::SetCollectionMetadata { who, collection, data, .. } => ProjectsCall::SetCollectionMetadata { who, collection, data, result: r },
        ProjectsCall::SetMetadata { who, collection, item, data, .. } => ProjectsCall::SetMetadata { who, collection, item, data, result: r },
        ProjectsCall::SetTeam { who, collection, .. } => ProjectsCall::SetTeam { who, collection, result: r },
        _ => c,
    }
}

/// The first fault of the pallet itself when `who` buys up to `n` NFTs of type `t` of `coll`,
/// the runtime accepting every call: an NFT without details, a price beyond `u64`, or the
/// launch of the funded project failing.
pub open spec fn buy_fault(v: ProjectsView, coll: CollectionId, t: u8, who: AccountId, n: nat) -> Option<DispatchError>
    decreases n,
{
    if n == 0 {
        None
    } else {
        let item = v.listed[coll][t][0];
        if entry(v.nft_details, coll, item) is None {
            Some(DispatchError::Module(Error::NftNotFound))
        } else if v.nft_details[coll][item].price > u64::MAX {
            Some(DispatchError::Module(Error::ConversionError))
        } else {
            let w = buy_step(v, coll, t, who);
            if w.projects[coll].project_balance >= w.projects[coll].project_price {
                match Pallet::launch_result(w, coll) {
                    Err(e) => Some(e),
                    Ok(()) => None,
                }
            } else {
                buy_fault(w, coll, t, who, (n - 1) as nat)
            }
        }
    }
}

/// What buying returns when the runtime accepts every call.
pub open spec fn buy_outcome(v: ProjectsView, coll: CollectionId, t: u8, who: AccountId, n: nat) -> Result<(), DispatchError> {
    match buy_fault(v, coll, t, who, n) {
        Some(e) => Err(e),
        None => Ok(()),
    }
}

/// The calls made so far, `a`, followed by the calls of a step, `b`, that follow the plan
/// `plan` of that step as far as they go.
proof fn lemma_calls_concat(pays: Seq<ProjectsCall>, a: Seq<ProjectsCall>, plan: Seq<ProjectsCall>, b: Seq<ProjectsCall>)
    requires
        pays == a + plan,
        forall|i: int| 0 <= i < a.len() ==> answer(#[trigger] a[i]) is Some && !refused(a[i]),
        b.len() <= plan.len(),
        forall|i: int| 0 <= i < b.len() ==> same_call(#[trigger] b[i], plan[i]),
        forall|i: int| 0 <= i < b.len() - 1 ==> #[trigger] b[i] == plan[i],
    ensures
        (a + b).len() <= pays.len(),
        forall|i: int| 0 <= i < (a + b).len() ==> same_call(#[trigger] (a + b)[i], pays[i]),
        forall|i: int| 0 <= i < (a + b).len() - 1 ==> #[trigger] (a + b)[i] == pays[i],
        b.len() > 0 ==> (a + b).last() == b.last(),
        b.len() == 0 && a.len() > 0 ==> !refused((a + b).last()),
        b == plan ==> a + b == pays,
{
    assert forall|i: int| 0 <= i < (a + b).len() implies same_call(#[trigger] (a + b)[i], pays[i]) by {
        if i < a.len() {
            assert(pays[i] == a[i]);
        } else {
            assert(pays[i] == plan[i - a.len()]);
            assert((a + b)[i] == b[i - a.len()]);
        }
    }
    assert forall|i: int| 0 <= i < (a + b).len() - 1 implies #[trigger] (a + b)[i] == pays[i] by {
        if i < a.len() {
            assert(pays[i] == a[i]);
        } else {
            assert(pays[i] == plan[i - a.len()]);
            assert((a + b)[i] == b[i - a.len()]);
        }
    }
    if b.len() == 0 && a.len() > 0 {
        assert(a + b =~= a);
        assert((a + b).last() == a[a.len() - 1]);
    }
    if b.len() > 0 {
        assert((a + b).last() == b[b.len() - 1]);
    }
}

/// `a` is the call `b` asks for, whatever the runtime answered.
pub open spec fn same_call(a: ProjectsCall, b: ProjectsCall) -> bool {
    &&& answer(a) is Some
    &&& answer(b) is Some
    &&& a == with_answer(b, answer(a)->Some_0)
}

/// Whether the runtime refused the call `c`.
pub open spec fn refused(c: ProjectsCall) -> bool {
    answer(c) matches Some(Err(_))
}

/// What the runtime answered to `c`, once it is known to be a call that can be refused.
pub open spec fn answer_of(c: ProjectsCall) -> Result<(), DispatchError> {
    answer(c)->Some_0
}

/// The collection id read in `c`, the answer of a read of the next collection id; a
/// collection id never set counts as its initial value, zero.
pub open spec fn collection_read(c: ProjectsCall) -> CollectionId {
    match c {
        ProjectsCall::NextCollectionId { id: Some(x) } => x,
        _ => 0,
    }
}

/// The calls made to the runtime from `before` on, when `before` is a prefix of `after`.
pub open spec fn calls_since(before: Seq<ProjectsCall>, after: Seq<ProjectsCall>) -> Seq<ProjectsCall> {
    after.subrange(before.len() as int, after.len() as int)
}

/// Constants of the runtime for this pallet.
#[derive(Debug, Clone, Copy, PartialEq, Eq, Structural)]
pub struct ProjectsConfig {
    /// The pallet's account.
    pub pallet_account: AccountId,
    /// The maximum amount of nfts listed per nft type.
    pub max_nft_in_collection: u32,
    /// The maximum amount of projects whose period ends at the same block.
    pub max_ongoing_projects: u32,
    /// What bonding leaves of an account's free balance.
    pub minimum_remaining_amount: Balance,
}

/// The whole state of the pallet as mathematical values.
#[verifier::ext_equal]
pub struct ProjectsView {
    pub config: ProjectsConfig,
    pub block_number: BlockNumber,
    pub nft_details: Map<CollectionId, Map<ItemId, NftDetails>>,
    pub projects: Map<CollectionId, ProjectDetails>,
    pub ended_projects: Map<CollectionId, EndedProjectDetails>,
    pub listed: Map<CollectionId, Map<u8, Seq<ItemId>>>,
    pub milestone_expiring: Map<BlockNumber, Seq<CollectionId>>,
    pub voting_expiring: Map<BlockNumber, Seq<CollectionId>>,
    pub votes: Map<CollectionId, VoteStats>,
    pub voted: Map<CollectionId, Set<AccountId>>,
    pub holders: Map<CollectionId, Set<AccountId>>,
    pub bonding: Map<CollectionId, Map<AccountId, Balance>>,
    pub user_bonded: Map<AccountId, Balance>,
    pub total_bonded: Balance,
    pub voting_power: Map<CollectionId, Map<AccountId, u64>>,
    pub events: Seq<Event>,
}

/// State of the community projects pallet.
pub struct Pallet {
    pub config: ProjectsConfig,
    /// The current block.
    pub block_number: BlockNumber,
    /// The details of each NFT still for sale, by collection and item.
    pub ongoing_nft_details: BTreeMap<CollectionId, BTreeMap<ItemId, NftDetails>>,
    /// Ongoing projects, by collection.
    pub ongoing_projects: BTreeMap<CollectionId, ProjectDetails>,
    /// Ended projects, by collection.
    pub ended_projects: BTreeMap<CollectionId, EndedProjectDetails>,
    /// The NFTs for sale of each collection and NFT type.
    pub listed_nft_types: BTreeMap<CollectionId, BTreeMap<u8, Vec<ItemId>>>,
    /// The projects whose milestone period ends at each block.
    pub milestone_period_expiring: BTreeMap<BlockNumber, Vec<CollectionId>>,
    /// The projects whose voting period ends at each block.
    pub voting_period_expiring: BTreeMap<BlockNumber, Vec<CollectionId>>,
    /// Ongoing votes, by collection.
    pub ongoing_votes: BTreeMap<CollectionId, VoteStats>,
    /// Who voted in the ongoing voting of each collection.
    pub voted_user: BTreeMap<CollectionId, BTreeSet<AccountId>>,
    /// The NFT holders of each collection.
    pub nft_holder: BTreeMap<CollectionId, BTreeSet<AccountId>>,
    /// What each account bonded to each project.
    pub project_bonding: BTreeMap<CollectionId, BTreeMap<AccountId, Balance>>,
    /// What each account bonded in all.
    pub user_bonded_amount: BTreeMap<AccountId, Balance>,
    /// Total bonded amount.
    pub total_bonded: Balance,
    /// The voting power of each account in each collection.
    pub voting_power: BTreeMap<CollectionId, BTreeMap<AccountId, u64>>,
    /// Events deposited so far.
    pub events: Vec<Event>,
    /// Every call made to the runtime so far, in order, with its answer.
    pub calls: Ghost<Seq<ProjectsCall>>,
}

/// The inner maps of a map keyed by collection, as maps.
pub open spec fn inner_maps<K, V>(m: Map<CollectionId, BTreeMap<K, V>>) -> Map<CollectionId, Map<K, V>> {
    Map::new(|k: CollectionId| m.dom().contains(k), |k: CollectionId| m[k]@)
}

/// The inner sets of a map keyed by collection, as sets.
pub open spec fn inner_sets(m: Map<CollectionId, BTreeSet<AccountId>>) -> Map<CollectionId, Set<AccountId>> {
    Map::new(|k: CollectionId| m.dom().contains(k), |k: CollectionId| m[k]@)
}

/// The listed NFTs of each collection and type, as sequences.
pub open spec fn listed_view(m: Map<CollectionId, BTreeMap<u8, Vec<ItemId>>>) -> Map<CollectionId, Map<u8, Seq<ItemId>>> {
    Map::new(
        |k: CollectionId| m.dom().contains(k),
        |k: CollectionId| Map::new(|t: u8| m[k]@.dom().contains(t), |t: u8| m[k]@[t]@),
    )
}

/// The projects ending at each block, as sequences.
pub open spec fn rounds_view(m: Map<BlockNumber, Vec<CollectionId>>) -> Map<BlockNumber, Seq<CollectionId>> {
    Map::new(|k: BlockNumber| m.dom().contains(k), |k: BlockNumber| m[k]@)
}

impl View for Pallet {
    type V = ProjectsView;

    open spec fn view(&self) -> ProjectsView {
        ProjectsView {
            config: self.config,
            block_number: self.block_number,
            nft_details: inner_maps(self.ongoing_nft_details@),
            projects: self.ongoing_projects@,
            ended_projects: self.ended_projects@,
            listed: listed_view(self.listed_nft_types@),
            milestone_expiring: rounds_view(self.milestone_period_expiring@),
            voting_expiring: rounds_view(self.voting_period_expiring@),
            votes: self.ongoing_votes@,
            voted: inner_sets(self.voted_user@),
            holders: inner_sets(self.nft_holder@),
            bonding: inner_maps(self.project_bonding@),
            user_bonded: self.user_bonded_amount@,
            total_bonded: self.total_bonded,
            voting_power: inner_maps(self.voting_power@),
            events: self.events@,
        }
    }
}

/// The entry of `a` in the inner map of `k`, if any.
pub open spec fn entry<K, V>(m: Map<CollectionId, Map<K, V>>, k: CollectionId, a: K) -> Option<V> {
    if m.dom().contains(k) && m[k].dom().contains(a) { Some(m[k][a]) } else { None }
}

/// The inner map of `k`, empty when there is none.
pub open spec fn inner_or_empty<K, V>(m: Map<CollectionId, Map<K, V>>, k: CollectionId) -> Map<K, V> {
    if m.dom().contains(k) { m[k] } else { Map::empty() }
}

/// The map with the entry of `a` in the inner map of `k` set to `v`.
pub open spec fn with_entry<K, V>(m: Map<CollectionId, Map<K, V>>, k: CollectionId, a: K, v: V) -> Map<CollectionId, Map<K, V>> {
    m.insert(k, inner_or_empty(m, k).insert(a, v))
}

/// The map without the entry of `a` in the inner map of `k` (which stays, maybe empty).
pub open spec fn without_entry<K, V>(m: Map<CollectionId, Map<K, V>>, k: CollectionId, a: K) -> Map<CollectionId, Map<K, V>> {
    if m.dom().contains(k) { m.insert(k, m[k].remove(a)) } else { m }
}

/// The members of the set of `k`, none when there is no set.
pub open spec fn members(m: Map<CollectionId, Set<AccountId>>, k: CollectionId) -> Set<AccountId> {
    if m.dom().contains(k) { m[k] } else { Set::empty() }
}

/// The map with `a` added to the set of `k`.
pub open spec fn with_member(m: Map<CollectionId, Set<AccountId>>, k: CollectionId, a: AccountId) -> Map<CollectionId, Set<AccountId>> {
    m.insert(k, members(m, k).insert(a))
}

/// The map with `a` taken out of the set of `k` (which stays, maybe empty).
pub open spec fn without_member(m: Map<CollectionId, Set<AccountId>>, k: CollectionId, a: AccountId) -> Map<CollectionId, Set<AccountId>> {
    if m.dom().contains(k) { m.insert(k, m[k].remove(a)) } else { m }
}

/// The projects ending at `block` (none when it has no entry).
pub open spec fn ending_at(m: Map<BlockNumber, Seq<CollectionId>>, block: BlockNumber) -> Seq<CollectionId> {
    if m.dom().contains(block) { m[block] } else { Seq::empty() }
}

/// `a + b`, or `u64::MAX` when it does not fit.
pub open spec fn sat_add(a: int, b: int) -> u64 {
    if a + b > u64::MAX { u64::MAX } else { (a + b) as u64 }
}

/// The length of a milestone period of a project of `duration` months, in blocks.
pub open spec fn milestone_period(duration: u32) -> u32 {
    if duration > 12 { (duration * 10 / 12) as u32 } else { 10 }
}

/// `v` with `coll` appended to the projects ending at `block`.
pub open spec fn pushed(m: Map<BlockNumber, Seq<CollectionId>>, block: BlockNumber, coll: CollectionId) -> Map<BlockNumber, Seq<CollectionId>> {
    m.insert(block, ending_at(m, block).push(coll))
}

/// The burn of `item` of `coll`, once the runtime accepted it.
pub open spec fn burn_call(coll: CollectionId, item: ItemId) -> ProjectsCall {
    ProjectsCall::Burn { collection: coll, item, result: Ok(()) }
}

/// The burns of the NFTs of `coll` listed under the types 1 to `k`, type after type.
pub open spec fn burns_to(v: ProjectsView, coll: CollectionId, k: int) -> Seq<ProjectsCall>
    decreases k,
{
    if k <= 0 {
        Seq::empty()
    } else {
        burns_to(v, coll, k - 1) + match listed_of(v, coll, k as u8) {
            Some(items) => items.map_values(|i: ItemId| burn_call(coll, i)),
            None => Seq::empty(),
        }
    }
}

/// Whether the NFT types 1 to `k` of `coll` are all listed.
pub open spec fn listed_to(v: ProjectsView, coll: CollectionId, k: int) -> bool {
    forall|t: int| 1 <= t <= k ==> (#[trigger] listed_of(v, coll, t as u8)) is Some
}

/// The burns launching `coll` makes: all its unsold NFTs.
pub open spec fn launch_burns(v: ProjectsView, coll: CollectionId) -> Seq<ProjectsCall> {
    burns_to(v, coll, v.projects[coll].nft_types as int)
}

/// The burns of the first `k` types come first among those of the first `n`.
proof fn lemma_burns_prefix(v: ProjectsView, coll: CollectionId, k: int, n: int)
    requires
        0 <= k <= n,
    ensures
        burns_to(v, coll, k).len() <= burns_to(v, coll, n).len(),
        forall|i: int| 0 <= i < burns_to(v, coll, k).len() ==> #[trigger] burns_to(v, coll, n)[i] == burns_to(v, coll, k)[i],
    decreases n - k,
{
    if k < n {
        lemma_burns_prefix(v, coll, k, n - 1);
        assert(burns_to(v, coll, n).len() >= burns_to(v, coll, n - 1).len());
        assert forall|i: int| 0 <= i < burns_to(v, coll, k).len() implies #[trigger] burns_to(v, coll, n)[i] == burns_to(v, coll, k)[i] by {
            assert(burns_to(v, coll, n)[i] == burns_to(v, coll, n - 1)[i]);
        }
    }
}

/// Every burn of the first `k` types is accepted in the plan.
proof fn lemma_burns_ok(v: ProjectsView, coll: CollectionId, k: int)
    ensures
        forall|i: int| 0 <= i < burns_to(v, coll, k).len() ==> answer(#[trigger] burns_to(v, coll, k)[i]) == Some(Ok::<(), DispatchError>(()))
            && burns_to(v, coll, k)[i] is Burn,
    decreases k,
{
    if k > 0 {
        lemma_burns_ok(v, coll, k - 1);
        let prev = burns_to(v, coll, k - 1);
        assert forall|i: int| 0 <= i < burns_to(v, coll, k).len() implies answer(#[trigger] burns_to(v, coll, k)[i]) == Some(Ok::<(), DispatchError>(()))
            && burns_to(v, coll, k)[i] is Burn by {
            if i < prev.len() {
                assert(burns_to(v, coll, k)[i] == prev[i]);
            }
        }
    }
}

/// The plan of burns of the first `n` types, seen at the `i`-th NFT of type `t`: the burns
/// made so far come first, then the burn of that NFT.
proof fn lemma_burn_step(v: ProjectsView, coll: CollectionId, t: int, items: Seq<ItemId>, i: int, n: int)
    requires
        1 <= t <= n,
        listed_of(v, coll, t as u8) == Some(items),
        0 <= i <= items.len(),
    ensures
        ({
            let seg0 = burns_to(v, coll, t - 1) + items.take(i).map_values(|x: ItemId| burn_call(coll, x));
            let plan = burns_to(v, coll, n);
            &&& seg0.len() <= plan.len()
            &&& forall|j: int| 0 <= j < seg0.len() ==> #[trigger] plan[j] == seg0[j]
            &&& i < items.len() ==> seg0.len() < plan.len() && plan[seg0.len() as int] == burn_call(coll, items[i])
            &&& i == items.len() ==> seg0 == burns_to(v, coll, t)
        }),
{
    let seg0 = burns_to(v, coll, t - 1) + items.take(i).map_values(|x: ItemId| burn_call(coll, x));
    let bt = burns_to(v, coll, t);
    lemma_burns_prefix(v, coll, t, n);
    assert(bt == burns_to(v, coll, t - 1) + items.map_values(|x: ItemId| burn_call(coll, x)));
    assert forall|j: int| 0 <= j < seg0.len() implies #[trigger] bt[j] == seg0[j] by {
        if j >= burns_to(v, coll, t - 1).len() {
            let q = j - burns_to(v, coll, t - 1).len();
            assert(items.take(i)[q] == items[q]);
        }
    }
    if i < items.len() {
        assert(bt[seg0.len() as int] == burn_call(coll, items[i]));
    }
    if i == items.len() {
        assert(items.take(i) =~= items);
        assert(seg0 =~= bt);
    }
}

/// Appends `coll` to the projects ending at `block`, unless `max` of them already end then.
fn push_round(rounds: &mut BTreeMap<BlockNumber, Vec<CollectionId>>, block: BlockNumber, coll: CollectionId, max: u32) -> (ok: bool)
    ensures
        ok == (ending_at(rounds_view(old(rounds)@), block).len() < max),
        ok ==> rounds_view(final(rounds)@) == pushed(rounds_view(old(rounds)@), block, coll),
        !ok ==> final(rounds)@ == old(rounds)@,
{
    let len = match rounds.get(&block) {
        Some(v) => v.len(),
        None => 0,
    };
    if len >= max as usize {
        return false;
    }
    let mut v = match rounds.remove(&block) {
        Some(v) => v,
        None => Vec::new(),
    };
    v.push(coll);
    let ghost v0 = rounds_view(old(rounds)@);
    rounds.insert(block, v);
    assert(rounds_view(rounds@) =~= pushed(v0, block, coll));
    true
}

/// Removes and returns the projects ending at `block`.
fn take_round(rounds: &mut BTreeMap<BlockNumber, Vec<CollectionId>>, block: BlockNumber) -> (v: Vec<CollectionId>)
    ensures
        v@ == ending_at(rounds_view(old(rounds)@), block),
        rounds_view(final(rounds)@) == rounds_view(old(rounds)@).remove(block),
{
    let ghost v0 = rounds_view(old(rounds)@);
    let r = match rounds.remove(&block) {
        Some(v) => v,
        None => Vec::new(),
    };
    assert(rounds_view(rounds@) =~= v0.remove(block));
    r
}

/// The entry of `a` in the inner map of `k`, if any.
fn get_entry<K: Ord + Copy, V: Copy>(m: &BTreeMap<CollectionId, BTreeMap<K, V>>, k: CollectionId, a: K) -> (r: Option<V>)
    requires
        vstd::laws_cmp::obeys_cmp::<K>(),
    ensures
        r == entry(inner_maps(m@), k, a),
{
    match m.get(&k) {
        Some(inner) => match inner.get(&a) {
            Some(v) => Some(*v),
            None => None,
        },
        None => None,
    }
}

/// Sets the entry of `a` in the inner map of `k` to `v`.
fn set_entry<K: Ord, V>(m: &mut BTreeMap<CollectionId, BTreeMap<K, V>>, k: CollectionId, a: K, v: V)
    requires
        vstd::laws_cmp::obeys_cmp::<K>(),
    ensures
        inner_maps(final(m)@) == with_entry(inner_maps(old(m)@), k, a, v),
{
    let ghost m0 = inner_maps(old(m)@);
    let mut inner = match m.remove(&k) {
        Some(i) => i,
        None => BTreeMap::new(),
    };
    inner.insert(a, v);
    m.insert(k, inner);
    assert(inner_maps(m@) =~= with_entry(m0, k, a, v));
}

/// Removes and returns the entry of `a` in the inner map of `k`.
fn take_entry<K: Ord, V>(m: &mut BTreeMap<CollectionId, BTreeMap<K, V>>, k: CollectionId, a: K) -> (r: Option<V>)
    requires
        vstd::laws_cmp::obeys_cmp::<K>(),
    ensures
        r == entry(inner_maps(old(m)@), k, a),
        inner_maps(final(m)@) == without_entry(inner_maps(old(m)@), k, a),
{
    let ghost m0 = inner_maps(old(m)@);
    match m.remove(&k) {
        Some(mut inner) => {
            let r = inner.remove(&a);
            m.insert(k, inner);
            assert(inner_maps(m@) =~= without_entry(m0, k, a));
            r
        },
        None => {
            assert(inner_maps(m@) =~= without_entry(m0, k, a));
            None
        },
    }
}

/// Whether `a` is in the set of `k`.
fn has_member(m: &BTreeMap<CollectionId, BTreeSet<AccountId>>, k: CollectionId, a: AccountId) -> (r: bool)
    ensures
        r == members(inner_sets(m@), k).contains(a),
{
    match m.get(&k) {
        Some(s) => s.contains(&a),
        None => false,
    }
}

/// Adds `a` to the set of `k`.
fn add_member(m: &mut BTreeMap<CollectionId, BTreeSet<AccountId>>, k: CollectionId, a: AccountId)
    ensures
        inner_sets(final(m)@) == with_member(inner_sets(old(m)@), k, a),
{
    let ghost m0 = inner_sets(old(m)@);
    let mut s = match m.remove(&k) {
        Some(s) => s,
        None => BTreeSet::new(),
    };
    s.insert(a);
    m.insert(k, s);
    assert(inner_sets(m@) =~= with_member(m0, k, a));
}

/// Takes `a` out of the set of `k`.
fn remove_member(m: &mut BTreeMap<CollectionId, BTreeSet<AccountId>>, k: CollectionId, a: AccountId)
    ensures
        inner_sets(final(m)@) == without_member(inner_sets(old(m)@), k, a),
{
    let ghost m0 = inner_sets(old(m)@);
    match m.remove(&k) {
        Some(mut s) => {
            s.remove(&a);
            m.insert(k, s);
            assert(inner_sets(m@) =~= without_member(m0, k, a));
        },
        None => {
            assert(inner_sets(m@) =~= without_member(m0, k, a));
        },
    }
}

/// The members of `s` that at least `CLEAR_LIMIT` members of `s` precede: what is left when
/// the `CLEAR_LIMIT` smallest are cleared.
pub open spec fn after_clear(s: Set<AccountId>) -> Set<AccountId> {
    s.filter(|x: AccountId| s.filter(|y: AccountId| y < x).len() >= CLEAR_LIMIT)
}

/// The map once the set of `k` is cleared: all of it when it has at most `CLEAR_LIMIT`
/// members, else its `CLEAR_LIMIT` smallest.
pub open spec fn cleared(m: Map<CollectionId, Set<AccountId>>, k: CollectionId) -> Map<CollectionId, Set<AccountId>> {
    if !m.dom().contains(k) {
        m
    } else if m[k].len() <= CLEAR_LIMIT {
        m.remove(k)
    } else {
        m.insert(k, after_clear(m[k]))
    }
}

/// The members of a set listed in increasing order: those below `elems[j]` are the first `j`.
proof fn lemma_below(s0: Set<AccountId>, elems: Seq<AccountId>, j: int)
    requires
        elems.to_set() == s0,
        elems.no_duplicates(),
        forall|a: int, b: int| 0 <= a < b < elems.len() ==> elems[a] < elems[b],
        0 <= j < elems.len(),
    ensures
        s0.filter(|y: AccountId| y < elems[j]) == elems.take(j).to_set(),
        s0.filter(|y: AccountId| y < elems[j]).len() == j,
{
    let x = elems[j];
    assert forall|y: AccountId| s0.filter(|y: AccountId| y < x).contains(y) <==> elems.take(j).to_set().contains(y) by {
        if s0.contains(y) && y < x {
            assert(elems.to_set().contains(y));
            let i = choose|i: int| 0 <= i < elems.len() && elems[i] == y;
            if i >= j {
                if i > j {
                    assert(elems[j] < elems[i]);
                }
            }
            assert(elems.take(j)[i] == y);
            assert(elems.take(j).contains(y));
        }
        if elems.take(j).to_set().contains(y) {
            let i = choose|i: int| 0 <= i < j && elems.take(j)[i] == y;
            assert(elems[i] == y);
            assert(elems.to_set().contains(y));
        }
    }
    assert(s0.filter(|y: AccountId| y < x) =~= elems.take(j).to_set());
    assert(elems.take(j).no_duplicates());
    elems.take(j).unique_seq_to_set();
}

/// Clears the set of `k` when it has at most `CLEAR_LIMIT` members; otherwise takes its
/// `CLEAR_LIMIT` smallest members out of it.
fn clear_members(m: &mut BTreeMap<CollectionId, BTreeSet<AccountId>>, k: CollectionId)
    ensures
        inner_sets(final(m)@) == cleared(inner_sets(old(m)@), k),
{
    broadcast use vstd::std_specs::btree::group_btree_axioms;
    let ghost m0 = inner_sets(old(m)@);
    let mut s = match m.remove(&k) {
        Some(s) => s,
        None => {
            assert(inner_sets(m@) =~= cleared(m0, k));
            return;
        },
    };
    let mut elems: Vec<AccountId> = Vec::new();
    for x in it: s.iter()
        invariant
            elems@ == it.seq().take(it.index() as int).unref(),
            it.seq() == vstd::std_specs::btree::spec_btree_keys_iter(&s).remaining(),
    {
        elems.push(*x);
        proof {
            assert(it.seq().take(it.index() as int + 1).unref() =~= elems@);
        }
    }
    proof {
        broadcast use vstd::std_specs::btree::axiom_spec_btree_keys_iter;
        let r = vstd::std_specs::btree::spec_btree_keys_iter(&s).remaining();
        assert(elems@ =~= r.unref());
        r.unref().unique_seq_to_set();
        lemma_increasing_accounts(r);
    }
    if elems.len() <= CLEAR_LIMIT {
        assert(inner_sets(m@) =~= cleared(m0, k));
        return;
    }
    let ghost s0 = s@;
    let mut i: usize = 0;
    while i < CLEAR_LIMIT
        invariant
            i <= CLEAR_LIMIT < elems@.len(),
            elems@.to_set() == s0,
            elems@.no_duplicates(),
            s0.finite(),
            s@ == s0.difference(elems@.take(i as int).to_set()),
        decreases CLEAR_LIMIT - i,
    {
        proof {
            assert(elems@.take(i as int + 1) =~= elems@.take(i as int).push(elems@[i as int]));
            elems@.take(i as int).lemma_push_to_set_commute(elems@[i as int]);
        }
        s.remove(&elems[i]);
        proof {
            assert(s@ =~= s0.difference(elems@.take(i as int + 1).to_set()));
        }
        i = i + 1;
    }
    proof {
        assert forall|x: AccountId| s@.contains(x) <==> after_clear(s0).contains(x) by {
            if s0.contains(x) {
                let j = choose|j: int| 0 <= j < elems@.len() && elems@[j] == x;
                lemma_below(s0, elems@, j);
                if j < CLEAR_LIMIT {
                    assert(elems@.take(CLEAR_LIMIT as int)[j] == x);
                    assert(elems@.take(CLEAR_LIMIT as int).contains(x));
                } else {
                    if elems@.take(CLEAR_LIMIT as int).contains(x) {
                        let a = choose|a: int| 0 <= a < CLEAR_LIMIT && elems@.take(CLEAR_LIMIT as int)[a] == x;
                        assert(elems@[a] == elems@[j]);
                    }
                }
            }
        }
        assert(s@ =~= after_clear(s0));
    }
    m.insert(k, s);
    assert(inner_sets(m@) =~= cleared(m0, k));
}

/// Members listed by a set in increasing order are strictly increasing.
proof fn lemma_increasing_accounts(s: Seq<&AccountId>)
    requires
        vstd::std_specs::btree::increasing_seq(s),
    ensures
        forall|i: int, j: int| 0 <= i < j < s.len() ==> *s[i] < *s[j],
        forall|i: int, j: int| 0 <= i < j < s.len() ==> s.unref()[i] < s.unref()[j],
{
    broadcast use vstd::std_specs::btree::axiom_increasing_seq_meaning;
    broadcast use vstd::laws_cmp::group_laws_cmp;
    assert forall|i: int, j: int| 0 <= i < j < s.len() implies *s[i] < *s[j] by {
        assert(vstd::std_specs::cmp::OrdSpec::cmp_spec(&s[i], &s[j]) is Less);
        assert(vstd::std_specs::cmp::OrdSpec::cmp_spec(s[i], s[j]) is Less);
    }
}

/// The xUSD amount `input` as a balance.
pub open spec fn to_u64(v: Balance) -> Result<u64, Error> {
    if v <= u64::MAX { Ok(v as u64) } else { Err(Error::ConversionError) }
}

/// A balance as `u64`, when it fits.
fn balance_to_u64(input: Balance) -> (r: Result<u64, Error>)
    ensures
        r == to_u64(input),
{
    if input <= u64::MAX as u128 {
        Ok(input as u64)
    } else {
        Err(Error::ConversionError)
    }
}

/// The signed account of `origin`, and whether it may act: signed and whitelisted.
pub open spec fn signer_error(origin: Origin, whitelist: Set<AccountId>) -> Option<DispatchError> {
    match origin {
        Origin::Signed(a) => if whitelist.contains(a) { None } else { Some(DispatchError::Module(Error::UserNotWhitelisted)) },
        _ => Some(DispatchError::BadOrigin),
    }
}

/// The signed account of `origin` once it may act.
fn whitelisted_signer(origin: Origin, whitelist: &BTreeSet<AccountId>) -> (r: Result<AccountId, DispatchError>)
    ensures
        match signer_error(origin, whitelist@) {
            Some(e) => r == Err::<AccountId, DispatchError>(e),
            None => r == Ok::<AccountId, DispatchError>(origin->Signed_0),
        },
{
    match origin {
        Origin::Signed(a) => if whitelist.contains(&a) {
            Ok(a)
        } else {
            Err(DispatchError::Module(Error::UserNotWhitelisted))
        },
        _ => Err(DispatchError::BadOrigin),
    }
}

/// Stats after a vote weighing `power`.
pub open spec fn tallied(stats: VoteStats, vote: Vote, power: u64) -> VoteStats {
    match vote {
        Vote::Yes => VoteStats { yes_votes: (stats.yes_votes + power) as u64, no_votes: stats.no_votes },
        Vote::No => VoteStats { yes_votes: stats.yes_votes, no_votes: (stats.no_votes + power) as u64 },
    }
}

/// The voting power of `who` in collection `coll` (zero when none was recorded).
pub open spec fn power_of(v: ProjectsView, coll: CollectionId, who: AccountId) -> u64 {
    match entry(v.voting_power, coll, who) {
        Some(p) => p,
        None => 0,
    }
}

/// Whether a vote of `vote` weighing `power` fits in the stats.
pub open spec fn tally_fits(stats: VoteStats, vote: Vote, power: u64) -> bool {
    match vote {
        Vote::Yes => stats.yes_votes + power <= u64::MAX,
        Vote::No => stats.no_votes + power <= u64::MAX,
    }
}

/// The share of the remaining milestones, in hundredths of a percent.
pub open spec fn remaining_percentage(p: ProjectDetails) -> u32 {
    let scaled: int = if p.remaining_milestones * 10000 > u32::MAX { u32::MAX as int } else { p.remaining_milestones * 10000 };
    (scaled / (p.milestones as int)) as u32
}

/// What the holders of a failed project can claim back in all: the share of the remaining
/// milestones of what the NFTs raised (the bonded part excluded).
pub open spec fn refundable_balance(p: ProjectDetails) -> Balance {
    let raised: int = if p.project_balance >= p.project_bonding_balance { p.project_balance - p.project_bonding_balance } else { 0 };
    let scaled: int = if raised * remaining_percentage(p) > u128::MAX { u128::MAX as int } else { raised * remaining_percentage(p) };
    (scaled / 10000) as Balance
}

impl Pallet {
    /// An empty pallet with the runtime's constants, at block 0.
    pub fn new(config: ProjectsConfig) -> (r: Self)
        ensures
            r@ == (ProjectsView {
                config,
                block_number: 0,
                nft_details: Map::empty(),
                projects: Map::empty(),
                ended_projects: Map::empty(),
                listed: Map::empty(),
                milestone_expiring: Map::empty(),
                voting_expiring: Map::empty(),
                votes: Map::empty(),
                voted: Map::empty(),
                holders: Map::empty(),
                bonding: Map::empty(),
                user_bonded: Map::empty(),
                total_bonded: 0,
                voting_power: Map::empty(),
                events: Seq::empty(),
            }),
            r.calls@ == Seq::<ProjectsCall>::empty(),
    {
        let r = Pallet {
            config,
            block_number: 0,
            ongoing_nft_details: BTreeMap::new(),
            ongoing_projects: BTreeMap::new(),
            ended_projects: BTreeMap::new(),
            listed_nft_types: BTreeMap::new(),
            milestone_period_expiring: BTreeMap::new(),
            voting_period_expiring: BTreeMap::new(),
            ongoing_votes: BTreeMap::new(),
            voted_user: BTreeMap::new(),
            nft_holder: BTreeMap::new(),
            project_bonding: BTreeMap::new(),
            user_bonded_amount: BTreeMap::new(),
            total_bonded: 0,
            voting_power: BTreeMap::new(),
            events: Vec::new(),
            calls: Ghost(Seq::empty()),
        };
        assert(r@.nft_details =~= Map::empty());
        assert(r@.listed =~= Map::empty());
        assert(r@.milestone_expiring =~= Map::empty());
        assert(r@.voting_expiring =~= Map::empty());
        assert(r@.voted =~= Map::empty());
        assert(r@.holders =~= Map::empty());
        assert(r@.bonding =~= Map::empty());
        assert(r@.voting_power =~= Map::empty());
        r
    }

    /// A copy of the state, to restore when a dispatchable fails.
    fn snapshot(&self) -> (r: Self)
        ensures
            r@ == self@,
            r.calls@ == self.calls@,
    {
        let events = self.events.clone();
        assert(events@ =~= self.events@);
        Pallet {
            config: self.config,
            block_number: self.block_number,
            ongoing_nft_details: self.ongoing_nft_details.clone(),
            ongoing_projects: self.ongoing_projects.clone(),
            ended_projects: self.ended_projects.clone(),
            listed_nft_types: self.listed_nft_types.clone(),
            milestone_period_expiring: self.milestone_period_expiring.clone(),
            voting_period_expiring: self.voting_period_expiring.clone(),
            ongoing_votes: self.ongoing_votes.clone(),
            voted_user: self.voted_user.clone(),
            nft_holder: self.nft_holder.clone(),
            project_bonding: self.project_bonding.clone(),
            user_bonded_amount: self.user_bonded_amount.clone(),
            total_bonded: self.total_bonded,
            voting_power: self.voting_power.clone(),
            events,
            calls: Ghost(self.calls@),
        }
    }

    /// Get the account id of the pallet.
    pub fn account_id(&self) -> (r: AccountId)
        ensures
            r == self.config.pallet_account,
    {
        self.config.pallet_account
    }

    /// Why voting on the milestone of `coll` would be refused.
    pub open spec fn vote_error(v: ProjectsView, origin: Origin, whitelist: Set<AccountId>, coll: CollectionId) -> Option<DispatchError> {
        if signer_error(origin, whitelist) is Some {
            signer_error(origin, whitelist)
        } else if !v.votes.dom().contains(coll) {
            Some(DispatchError::Module(Error::NoOngoingVotingPeriod))
        } else if !members(v.holders, coll).contains(origin->Signed_0) {
            Some(DispatchError::Module(Error::InsufficientPermission))
        } else if members(v.voted, coll).contains(origin->Signed_0) {
            Some(DispatchError::Module(Error::AlreadyVoted))
        } else {
            None
        }
    }

    /// The pallet after `voter` voted `vote` on the milestone of `coll`.
    pub open spec fn voted_on(v: ProjectsView, coll: CollectionId, voter: AccountId, vote: Vote) -> ProjectsView {
        ProjectsView {
            voted: with_member(v.voted, coll, voter),
            votes: v.votes.insert(coll, tallied(v.votes[coll], vote, power_of(v, coll, voter))),
            events: v.events.push(Event::VotedOnMilestone { collection_index: coll, voter, vote }),
            ..v
        }
    }

    /// Nft holder vote on milestone during voting period, with all its voting power.
    pub fn vote_on_milestone(&mut self, origin: Origin, collection_id: CollectionId, vote: Vote, whitelist: &BTreeSet<AccountId>) -> (res: Result<(), DispatchError>)
        requires
            Self::vote_error(old(self)@, origin, whitelist@, collection_id) is None ==> tally_fits(
                old(self)@.votes[collection_id],
                vote,
                power_of(old(self)@, collection_id, origin->Signed_0),
            ),
        ensures
            match Self::vote_error(old(self)@, origin, whitelist@, collection_id) {
                Some(e) => res == Err::<(), DispatchError>(e) && final(self)@ == old(self)@,
                None => res is Ok && final(self)@ == Self::voted_on(old(self)@, collection_id, origin->Signed_0, vote),
            },
    {
        let voter = match whitelisted_signer(origin, whitelist) {
            Ok(a) => a,
            Err(e) => {
                return Err(e);
            },
        };
        let mut current_vote = match self.ongoing_votes.get(&collection_id) {
            Some(s) => *s,
            None => {
                return Err(DispatchError::Module(Error::NoOngoingVotingPeriod));
            },
        };
        if !has_member(&self.nft_holder, collection_id, voter) {
            return Err(DispatchError::Module(Error::InsufficientPermission));
        }
        if has_member(&self.voted_user, collection_id, voter) {
            return Err(DispatchError::Module(Error::AlreadyVoted));
        }
        let voting_power = match get_entry(&self.voting_power, collection_id, voter) {
            Some(p) => p,
            None => 0,
        };
        match vote {
            Vote::Yes => {
                current_vote.yes_votes = current_vote.yes_votes + voting_power;
            },
            Vote::No => {
                current_vote.no_votes = current_vote.no_votes + voting_power;
            },
        }
        let ghost v0 = self@;
        add_member(&mut self.voted_user, collection_id, voter);
        self.ongoing_votes.insert(collection_id, current_vote);
        self.events.push(Event::VotedOnMilestone { collection_index: collection_id, voter, vote });
        assert(self@ =~= Self::voted_on(v0, collection_id, voter, vote));
        Ok(())
    }

    /// The pallet once a voting period started for `coll`.
    pub open spec fn voting_started(v: ProjectsView, coll: CollectionId) -> ProjectsView {
        ProjectsView {
            votes: v.votes.insert(coll, VoteStats { yes_votes: 0, no_votes: 0 }),
            voting_expiring: pushed(v.voting_expiring, sat_add(v.block_number as int, VOTING_PERIOD as int), coll),
            events: v.events.push(Event::VotingPeriodStarted { collection_index: coll }),
            ..v
        }
    }

    /// Starts a voting period and enables nft holders from a collection to vote. When too many
    /// periods already end at the same block, the votes are opened but the period is not
    /// scheduled.
    fn start_voting_period(&mut self, collection_id: CollectionId) -> (res: Result<(), Error>)
        ensures
            ({
                let end = sat_add(old(self)@.block_number as int, VOTING_PERIOD as int);
                if ending_at(old(self)@.voting_expiring, end).len() < old(self)@.config.max_ongoing_projects {
                    res is Ok && final(self)@ == Self::voting_started(old(self)@, collection_id)
                } else {
                    res == Err::<(), Error>(Error::TooManyProjects) && final(self)@ == ProjectsView {
                        votes: old(self)@.votes.insert(collection_id, VoteStats { yes_votes: 0, no_votes: 0 }),
                        ..old(self)@
                    }
                }
            }),
            final(self).calls@ == old(self).calls@,
    {
        let ghost v0 = self@;
        self.ongoing_votes.insert(collection_id, VoteStats { yes_votes: 0, no_votes: 0 });
        let expiry_block = self.block_number.saturating_add(VOTING_PERIOD);
        if !push_round(&mut self.voting_period_expiring, expiry_block, collection_id, self.config.max_ongoing_projects) {
            assert(self@ =~= ProjectsView { votes: v0.votes.insert(collection_id, VoteStats { yes_votes: 0, no_votes: 0 }), ..v0 });
            return Err(Error::TooManyProjects);
        }
        self.events.push(Event::VotingPeriodStarted { collection_index: collection_id });
        assert(self@ =~= Self::voting_started(v0, collection_id));
        Ok(())
    }

    /// The pallet once a milestone period started for `coll`.
    pub open spec fn milestone_started(v: ProjectsView, coll: CollectionId) -> ProjectsView {
        ProjectsView {
            milestone_expiring: pushed(
                v.milestone_expiring,
                sat_add(v.block_number as int, milestone_period(v.projects[coll].duration) as int),
                coll,
            ),
            events: v.events.push(Event::MilestonePeriodStarted { collection_id: coll }),
            ..v
        }
    }

    /// Starts a milestone period after a voting period has ended.
    fn start_milestone_period(&mut self, collection_id: CollectionId) -> (res: Result<(), Error>)
        requires
            old(self)@.projects.dom().contains(collection_id) ==> old(self)@.projects[collection_id].duration * 10 <= u32::MAX,
        ensures
            !old(self)@.projects.dom().contains(collection_id) ==> res == Err::<(), Error>(Error::InvalidIndex) && final(self)@ == old(self)@,
            old(self)@.projects.dom().contains(collection_id) ==> {
                let end = sat_add(old(self)@.block_number as int, milestone_period(old(self)@.projects[collection_id].duration) as int);
                if ending_at(old(self)@.milestone_expiring, end).len() < old(self)@.config.max_ongoing_projects {
                    res is Ok && final(self)@ == Self::milestone_started(old(self)@, collection_id)
                } else {
                    res == Err::<(), Error>(Error::TooManyProjects) && final(self)@ == old(self)@
                }
            },
            final(self).calls@ == old(self).calls@,
    {
        let duration = match self.ongoing_projects.get(&collection_id) {
            Some(p) => p.duration,
            None => {
                return Err(Error::InvalidIndex);
            },
        };
        let period: u32 = if duration > 12 { duration * 10 / 12 } else { 10 };
        let expiry_block = self.block_number.saturating_add(period as u64);
        let ghost v0 = self@;
        if !push_round(&mut self.milestone_period_expiring, expiry_block, collection_id, self.config.max_ongoing_projects) {
            assert(self@ =~= v0);
            return Err(Error::TooManyProjects);
        }
        self.events.push(Event::MilestonePeriodStarted { collection_id });
        assert(self@ =~= Self::milestone_started(v0, collection_id));
        Ok(())
    }

    /// The pallet once project `coll` ended as a failure and its holders may claim back what
    /// is left.
    pub open spec fn refund_deleted(v: ProjectsView, coll: CollectionId) -> ProjectsView {
        let p = v.projects[coll];
        ProjectsView {
            projects: v.projects.remove(coll),
            ended_projects: v.ended_projects.insert(coll, EndedProjectDetails {
                project_success: false,
                remaining_balance: refundable_balance(p),
                bonding_balance: p.project_bonding_balance,
                remaining_percentage: remaining_percentage(p),
            }),
            events: v.events.push(Event::ProjectDeleted { collection_id: coll }),
            ..v
        }
    }

    /// Deletes the project and refunds the remaining funds to the holders.
    fn delete_project_refund(&mut self, collection_id: CollectionId) -> (res: Result<(), Error>)
        requires
            old(self)@.projects.dom().contains(collection_id) ==> old(self)@.projects[collection_id].milestones > 0,
        ensures
            !old(self)@.projects.dom().contains(collection_id) ==> res == Err::<(), Error>(Error::InvalidIndex) && final(self)@ == old(self)@,
            old(self)@.projects.dom().contains(collection_id) ==> res is Ok && final(self)@ == Self::refund_deleted(old(self)@, collection_id),
            final(self).calls@ == old(self).calls@,
    {
        let ghost v0 = self@;
        let project = match self.ongoing_projects.remove(&collection_id) {
            Some(p) => p,
            None => {
                return Err(Error::InvalidIndex);
            },
        };
        let scaled_milestones: u32 = match project.remaining_milestones.checked_mul(10000) {
            Some(x) => x,
            None => u32::MAX,
        };
        let percentage: u32 = scaled_milestones / project.milestones;
        let raised: u128 = project.project_balance.saturating_sub(project.project_bonding_balance);
        let scaled_raised: u128 = match raised.checked_mul(percentage as u128) {
            Some(x) => x,
            None => u128::MAX,
        };
        let remaining_balance: u128 = scaled_raised / 10000;
        let ended_project = EndedProjectDetails {
            project_success: false,
            remaining_balance,
            bonding_balance: project.project_bonding_balance,
            remaining_percentage: percentage,
        };
        self.ended_projects.insert(collection_id, ended_project);
        self.events.push(Event::ProjectDeleted { collection_id });
        assert(self@ =~= Self::refund_deleted(v0, collection_id));
        Ok(())
    }

    /// The pallet once project `coll` gets one more strike (and ends when it has three).
    pub open spec fn struck(v: ProjectsView, coll: CollectionId) -> ProjectsView {
        let p = v.projects[coll];
        let w = ProjectsView { projects: v.projects.insert(coll, ProjectDetails { strikes: (p.strikes + 1) as u8, ..p }), ..v };
        if p.strikes + 1 >= 3 { Self::refund_deleted(w, coll) } else { w }
    }

    /// Evaluates if the project has 3 or more strikes and calls the delete delete_project_refund if its the case.
    fn ckeck_strikes(&mut self, collection_id: CollectionId) -> (res: Result<(), Error>)
        requires
            old(self)@.projects.dom().contains(collection_id) ==> {
                &&& old(self)@.projects[collection_id].strikes < u8::MAX
                &&& old(self)@.projects[collection_id].milestones > 0
            },
        ensures
            !old(self)@.projects.dom().contains(collection_id) ==> res == Err::<(), Error>(Error::InvalidIndex) && final(self)@ == old(self)@,
            old(self)@.projects.dom().contains(collection_id) ==> res is Ok && final(self)@ == Self::struck(old(self)@, collection_id),
            final(self).calls@ == old(self).calls@,
    {
        let ghost v0 = self@;
        let mut project = match self.ongoing_projects.get(&collection_id) {
            Some(p) => *p,
            None => {
                return Err(Error::InvalidIndex);
            },
        };
        project.strikes = project.strikes + 1;
        self.ongoing_projects.insert(collection_id, project);
        if project.strikes >= 3 {
            let ghost w = self@;
            assert(w =~= ProjectsView { projects: v0.projects.insert(collection_id, project), ..v0 });
            let r = self.delete_project_refund(collection_id);
            assert(r is Ok);
        } else {
            assert(self@ =~= Self::struck(v0, collection_id));
        }
        Ok(())
    }

    /// The pallet once project `coll` reached its last milestone.
    pub open spec fn completed(v: ProjectsView, coll: CollectionId) -> ProjectsView {
        let p = v.projects[coll];
        ProjectsView {
            projects: v.projects.remove(coll),
            ended_projects: v.ended_projects.insert(coll, EndedProjectDetails {
                project_success: true,
                remaining_balance: 0,
                bonding_balance: p.project_bonding_balance,
                remaining_percentage: 0,
            }),
            events: v.events.push(Event::ProjectDeleted { collection_id: coll }).push(Event::ProjectDeleted { collection_id: coll }),
            holders: cleared(v.holders, coll),
            ..v
        }
    }

    /// Deletes the projects once all milestones has been reached.
    fn delete_project(&mut self, collection_id: CollectionId) -> (res: Result<(), Error>)
        ensures
            !old(self)@.projects.dom().contains(collection_id) ==> res == Err::<(), Error>(Error::InvalidIndex) && final(self)@ == old(self)@,
            old(self)@.projects.dom().contains(collection_id) ==> res is Ok && final(self)@ == Self::completed(old(self)@, collection_id),
            final(self).calls@ == old(self).calls@,
    {
        let ghost v0 = self@;
        let project = match self.ongoing_projects.remove(&collection_id) {
            Some(p) => p,
            None => {
                return Err(Error::InvalidIndex);
            },
        };
        let ended_project = EndedProjectDetails {
            project_success: true,
            remaining_balance: 0,
            bonding_balance: project.project_bonding_balance,
            remaining_percentage: 0,
        };
        self.ended_projects.insert(collection_id, ended_project);
        self.events.push(Event::ProjectDeleted { collection_id });
        self.events.push(Event::ProjectDeleted { collection_id });
        clear_members(&mut self.nft_holder, collection_id);
        assert(self@ =~= Self::completed(v0, collection_id));
        Ok(())
    }

    /// The pallet once project `coll` is launched: its unsold NFTs are no longer listed, it is
    /// ongoing from the current block and its first milestone period starts.
    pub open spec fn launched(v: ProjectsView, coll: CollectionId) -> ProjectsView {
        let p = v.projects[coll];
        ProjectsView {
            listed: if v.listed.dom().contains(coll) {
                v.listed.insert(coll, v.listed[coll].remove_keys(Set::new(|t: u8| 1 <= t <= p.nft_types)))
            } else {
                v.listed
            },
            projects: v.projects.insert(coll, ProjectDetails { launching_timestamp: v.block_number, ongoing: true, ..p }),
            milestone_expiring: pushed(
                v.milestone_expiring,
                sat_add(v.block_number as int, milestone_period(p.duration) as int),
                coll,
            ),
            events: v.events.push(Event::ProjectLaunched { collection_index: coll }),
            ..v
        }
    }

    /// Why launching `coll` would fail once its unsold NFTs are burnt: an NFT type that is not
    /// listed, a milestone period that overflows, or a full list of projects whose milestone
    /// period ends at the same block.
    pub open spec fn launch_result(v: ProjectsView, coll: CollectionId) -> Result<(), DispatchError> {
        let p = v.projects[coll];
        if !listed_to(v, coll, p.nft_types as int) {
            Err(DispatchError::Module(Error::InvalidIndex))
        } else if p.duration > 12 && p.duration * 10 > u32::MAX {
            Err(DispatchError::Module(Error::ArithmeticOverflow))
        } else if ending_at(v.milestone_expiring, sat_add(v.block_number as int, milestone_period(p.duration) as int)).len()
            >= v.config.max_ongoing_projects {
            Err(DispatchError::Module(Error::TooManyProjects))
        } else {
            Ok(())
        }
    }

    /// What launching `coll` leads to, given the burns made (`seg`): the unsold NFTs are burnt
    /// type after type, each in its listed order; a refused burn fails the launch with the
    /// runtime's answer; otherwise the launch ends as `launch_result` says.
    pub open spec fn launch_made(v: ProjectsView, coll: CollectionId, seg: Seq<ProjectsCall>, res: Result<(), DispatchError>) -> bool {
        let plan = launch_burns(v, coll);
        &&& seg.len() <= plan.len()
        &&& forall|i: int| 0 <= i < seg.len() ==> same_call(#[trigger] seg[i], plan[i])
        &&& forall|i: int| 0 <= i < seg.len() - 1 ==> #[trigger] seg[i] == plan[i]
        &&& if seg.len() > 0 && refused(seg.last()) {
            res == answer_of(seg.last())
        } else {
            &&& res == Self::launch_result(v, coll)
            &&& listed_to(v, coll, v.projects[coll].nft_types as int) ==> seg == plan
        }
    }

    /// Launches the project and burns all its remaining NFTs.
    fn launch_project<R: ProjectsRuntime>(&mut self, collection_id: CollectionId, runtime: &mut R) -> (res: Result<(), DispatchError>)
        ensures
            final(self).calls@.len() >= old(self).calls@.len(),
            final(self).calls@.subrange(0, old(self).calls@.len() as int) == old(self).calls@,
            !old(self)@.projects.dom().contains(collection_id) ==> {
                &&& res == Err::<(), DispatchError>(DispatchError::Module(Error::InvalidIndex))
                &&& final(self).calls@ == old(self).calls@
            },
            old(self)@.projects.dom().contains(collection_id) ==> Self::launch_made(
                old(self)@,
                collection_id,
                calls_since(old(self).calls@, final(self).calls@),
                res,
            ),
            res is Ok ==> final(self)@ == Self::launched(old(self)@, collection_id),
    {
        let ghost v0 = self@;
        let ghost k0 = self.calls@.len();
        let mut project = match self.ongoing_projects.get(&collection_id) {
            Some(p) => *p,
            None => {
                proof { assert(self.calls@.subrange(0, k0 as int) =~= old(self).calls@); }
                return Err(DispatchError::Module(Error::InvalidIndex));
            },
        };
        let n = project.nft_types;
        let ghost plan = launch_burns(v0, collection_id);
        let mut nft_type: u16 = 1;
        proof {
            if v0.listed.dom().contains(collection_id) {
                assert(v0.listed[collection_id].remove_keys(Set::new(|t: u8| 1 <= t < 1)) =~= v0.listed[collection_id]);
                assert(v0.listed.insert(collection_id, v0.listed[collection_id]) =~= v0.listed);
            }
            assert(self@ =~= v0);
            assert(self.calls@.subrange(0, k0 as int) =~= old(self).calls@);
            assert(calls_since(old(self).calls@, self.calls@) =~= burns_to(v0, collection_id, 0));
            lemma_burns_ok(v0, collection_id, n as int);
        }
        while nft_type <= n as u16
            invariant
                1 <= nft_type <= n + 1,
                v0 == old(self)@,
                k0 == old(self).calls@.len(),
                self.calls@.len() >= k0,
                self.calls@.subrange(0, k0 as int) == old(self).calls@,
                calls_since(old(self).calls@, self.calls@) == burns_to(v0, collection_id, nft_type - 1),
                listed_to(v0, collection_id, nft_type - 1),
                plan == launch_burns(v0, collection_id),
                forall|i: int| 0 <= i < plan.len() ==> answer(#[trigger] plan[i]) == Some(Ok::<(), DispatchError>(())),
                v0.projects.dom().contains(collection_id),
                project == v0.projects[collection_id],
                n == project.nft_types,
                self@ == (ProjectsView {
                    listed: if v0.listed.dom().contains(collection_id) {
                        v0.listed.insert(collection_id, v0.listed[collection_id].remove_keys(Set::new(|t: u8| 1 <= t < nft_type)))
                    } else {
                        v0.listed
                    },
                    ..v0
                }),
            decreases n + 1 - nft_type,
        {
            let t = nft_type as u8;
            let ghost before_take = self@;
            let remaining_nfts = match take_listed(&mut self.listed_nft_types, collection_id, t) {
                Some(v) => v,
                None => {
                    proof {
                        assert(listed_of(v0, collection_id, t) is None);
                        assert(!listed_to(v0, collection_id, n as int));
                        let seg = calls_since(old(self).calls@, self.calls@);
                        lemma_burns_prefix(v0, collection_id, t - 1, n as int);
                        lemma_burns_ok(v0, collection_id, t - 1);
                        assert(plan =~= seg + plan.skip(seg.len() as int));
                        lemma_buy_calls(plan, seg, plan.skip(seg.len() as int));
                        if seg.len() > 0 {
                            assert(seg.last() == seg[seg.len() - 1]);
                        }
                    }
                    return Err(DispatchError::Module(Error::InvalidIndex));
                },
            };
            proof {
                assert(listed_of(v0, collection_id, t) == Some(remaining_nfts@));
            }
            let ghost after_take = self@;
            let mut i: usize = 0;
            while i < remaining_nfts.len()
                invariant
                    0 <= i <= remaining_nfts.len(),
                    1 <= t <= n,
                    v0 == old(self)@,
                    k0 == old(self).calls@.len(),
                    self.calls@.len() >= k0,
                    self.calls@.subrange(0, k0 as int) == old(self).calls@,
                    listed_of(v0, collection_id, t) == Some(remaining_nfts@),
                    calls_since(old(self).calls@, self.calls@)
                        == burns_to(v0, collection_id, t - 1) + remaining_nfts@.take(i as int).map_values(|x: ItemId| burn_call(collection_id, x)),
                    plan == launch_burns(v0, collection_id),
                    forall|j: int| 0 <= j < plan.len() ==> answer(#[trigger] plan[j]) == Some(Ok::<(), DispatchError>(())),
                    old(self)@.projects.dom().contains(collection_id),
                    n == v0.projects[collection_id].nft_types,
                    self@ == after_take,
                decreases remaining_nfts.len() - i,
            {
                let item = remaining_nfts[i];
                let burnt: Result<(), DispatchError> = match runtime.burn(collection_id, item) {
                    Ok(()) => Ok(()),
                    Err(e) => Err(e),
                };
                let ghost seg0 = calls_since(old(self).calls@, self.calls@);
                self.calls = Ghost(self.calls@.push(ProjectsCall::Burn { collection: collection_id, item, result: burnt }));
                proof {
                    let c = ProjectsCall::Burn { collection: collection_id, item, result: burnt };
                    assert(self.calls@.subrange(0, k0 as int) =~= old(self).calls@);
                    assert(calls_since(old(self).calls@, self.calls@) =~= seg0.push(c));
                    lemma_burn_step(v0, collection_id, t as int, remaining_nfts@, i as int, n as int);
                    lemma_burns_ok(v0, collection_id, t - 1);
                    assert forall|j: int| 0 <= j < seg0.len() implies answer(#[trigger] seg0[j]) is Some by {
                        assert(seg0[j] == plan[j]);
                    }
                    assert(plan =~= seg0 + plan.skip(seg0.len() as int));
                    if burnt is Err {
                        lemma_buy_refused(plan, seg0, plan.skip(seg0.len() as int), c);
                        assert(seg0.push(c).last() == c);
                    } else {
                        assert(remaining_nfts@.take(i as int + 1) =~= remaining_nfts@.take(i as int).push(item));
                        assert(calls_since(old(self).calls@, self.calls@) =~= burns_to(v0, collection_id, t - 1)
                            + remaining_nfts@.take(i as int + 1).map_values(|x: ItemId| burn_call(collection_id, x)));
                    }
                }
                match burnt {
                    Ok(()) => {},
                    Err(e) => {
                        return Err(e);
                    },
                }
                i = i + 1;
            }
            proof {
                lemma_burn_step(v0, collection_id, t as int, remaining_nfts@, remaining_nfts@.len() as int, n as int);
                assert forall|x: int| 1 <= x <= nft_type implies (#[trigger] listed_of(v0, collection_id, x as u8)) is Some by {
                    if x < nft_type {
                        assert(listed_of(v0, collection_id, x as u8) is Some);
                    }
                }
                assert(v0.listed.dom().contains(collection_id));
                assert(self@.listed[collection_id] =~= v0.listed[collection_id].remove_keys(Set::new(|x: u8| 1 <= x < nft_type + 1)));
                assert(self@.listed =~= v0.listed.insert(collection_id, v0.listed[collection_id].remove_keys(Set::new(|x: u8| 1 <= x < nft_type + 1))));
            }
            nft_type = nft_type + 1;
        }
        proof {
            if v0.listed.dom().contains(collection_id) {
                assert(v0.listed[collection_id].remove_keys(Set::new(|t: u8| 1 <= t < nft_type)) =~= v0.listed[collection_id].remove_keys(Set::new(|t: u8| 1 <= t <= n)));
            }
            let seg = calls_since(old(self).calls@, self.calls@);
            assert(seg == plan);
            if seg.len() > 0 {
                assert(seg.last() == plan[seg.len() - 1]);
            }
            assert forall|j: int| 0 <= j < seg.len() implies same_call(#[trigger] seg[j], plan[j]) by {
                assert(answer(plan[j]) == Some(Ok::<(), DispatchError>(())));
            }
        }
        let ghost after_burn = self@;
        project.launching_timestamp = self.block_number;
        let period: u32 = if project.duration > 12 {
            match project.duration.checked_mul(10) {
                Some(x) => x / 12,
                None => {
                    return Err(DispatchError::Module(Error::ArithmeticOverflow));
                },
            }
        } else {
            10
        };
        assert(period == milestone_period(project.duration));
        project.ongoing = true;
        self.ongoing_projects.insert(collection_id, project);
        let expiry_block = self.block_number.saturating_add(period as u64);
        if !push_round(&mut self.milestone_period_expiring, expiry_block, collection_id, self.config.max_ongoing_projects) {
            return Err(DispatchError::Module(Error::TooManyProjects));
        }
        self.events.push(Event::ProjectLaunched { collection_index: collection_id });
        assert(self@ =~= Self::launched(v0, collection_id));
        Ok(())
    }
}

/// How the funds of one milestone are paid to the project owner: in xUSD, in native tokens
/// (for the part that bonding financed), or split between both.
#[derive(Debug, Clone, Copy, PartialEq, Eq, Structural)]
pub enum Payout {
    Xusd(Balance),
    Native(Balance),
    Split(Balance, Balance),
}

/// The funds of one milestone of `p`: its balance split evenly over its milestones.
pub open spec fn funds_for_round(p: ProjectDetails) -> int {
    p.project_balance as int / p.milestones as int
}

/// The funds of the remaining milestones of `p`.
pub open spec fn remaining_funds(p: ProjectDetails) -> int {
    funds_for_round(p) * p.remaining_milestones
}

/// The payout of the next milestone of `p`: xUSD while what remains beyond the bonded part
/// covers a round, native tokens once only the bonded part remains, both in between.
pub open spec fn payout(p: ProjectDetails) -> Payout {
    let rf = remaining_funds(p);
    let fr = funds_for_round(p);
    let bond = p.project_bonding_balance as int;
    if fr <= rf - bond {
        Payout::Xusd(fr as Balance)
    } else if rf <= bond {
        Payout::Native(fr as Balance)
    } else {
        Payout::Split((rf - bond) as Balance, (if fr >= rf - bond { fr - (rf - bond) } else { 0 }) as Balance)
    }
}

/// Whether paying the next milestone of `p` stays within the arithmetic of the runtime: at
/// least one milestone, the remaining funds fit, and (when the bonded part fits in `u64`) it
/// does not exceed the remaining funds.
pub open spec fn payout_fits(p: ProjectDetails) -> bool {
    &&& p.milestones > 0
    &&& remaining_funds(p) <= u128::MAX
    &&& p.project_bonding_balance <= u64::MAX ==> p.project_bonding_balance <= remaining_funds(p)
}

/// The payout of the next milestone of `p`, or a conversion error when its bonded part does
/// not fit in `u64`.
fn payout_of(p: &ProjectDetails) -> (r: Result<Payout, Error>)
    requires
        payout_fits(*p),
    ensures
        p.project_bonding_balance > u64::MAX ==> r == Err::<Payout, Error>(Error::ConversionError),
        p.project_bonding_balance <= u64::MAX ==> r == Ok::<Payout, Error>(payout(*p)),
{
    let funds_for_this_round: u128 = p.project_balance / p.milestones as u128;
    proof {
        assert(funds_for_this_round * p.remaining_milestones <= u128::MAX);
    }
    let remaining: u128 = funds_for_this_round * p.remaining_milestones as u128;
    let bonding = match balance_to_u64(p.project_bonding_balance) {
        Ok(b) => b as u128,
        Err(e) => {
            return Err(e);
        },
    };
    if funds_for_this_round <= remaining - bonding {
        Ok(Payout::Xusd(funds_for_this_round))
    } else if remaining <= bonding {
        Ok(Payout::Native(funds_for_this_round))
    } else {
        let transfer_xusd_amount = remaining - bonding;
        let transfer_native_amount = funds_for_this_round.saturating_sub(transfer_xusd_amount);
        Ok(Payout::Split(transfer_xusd_amount, transfer_native_amount))
    }
}

impl Pallet {
    /// The pallet once the funds of the next milestone of `coll` were paid.
    pub open spec fn distributed(v: ProjectsView, coll: CollectionId) -> ProjectsView {
        let p = v.projects[coll];
        ProjectsView {
            projects: v.projects.insert(coll, ProjectDetails {
                remaining_milestones: if p.remaining_milestones >= 1 { (p.remaining_milestones - 1) as u32 } else { 0 },
                strikes: 0,
                ..p
            }),
            events: v.events.push(Event::FundsDestributed {
                collection_index: coll,
                owner: p.project_owner,
                amount: funds_for_round(p) as Balance,
            }),
            ..v
        }
    }

    /// What paying the next milestone of `coll` leads to, given the transfers made (`seg`): the
    /// new state `fin` and the result `res`. The xUSD part goes first, from the pallet's account
    /// to the project's owner, then the native part; a failed xUSD transfer is reported as
    /// `NotEnoughFunds`. When a transfer fails the project is no longer ongoing.
    pub open spec fn distribute_made(v: ProjectsView, coll: CollectionId, seg: Seq<ProjectsCall>, fin: ProjectsView, res: Result<(), DispatchError>) -> bool {
        let p = v.projects[coll];
        let pallet = v.config.pallet_account;
        let gone = ProjectsView { projects: v.projects.remove(coll), ..v };
        let not_enough = Err::<(), DispatchError>(DispatchError::Module(Error::NotEnoughFunds));
        if p.project_bonding_balance > u64::MAX {
            seg.len() == 0 && fin == gone && res == Err::<(), DispatchError>(DispatchError::Module(Error::ConversionError))
        } else {
            match payout(p) {
                Payout::Xusd(a) => {
                    &&& seg.len() == 1
                    &&& seg[0] == ProjectsCall::TransferAsset { asset: XUSD_ASSET_ID, from: pallet, to: p.project_owner, amount: a, result: seg[0]->TransferAsset_result }
                    &&& if seg[0]->TransferAsset_result is Ok { fin == Self::distributed(v, coll) && res is Ok } else { fin == gone && res == not_enough }
                },
                Payout::Native(a) => {
                    &&& seg.len() == 1
                    &&& seg[0] == ProjectsCall::TransferNative { from: pallet, to: p.project_owner, amount: a, result: seg[0]->TransferNative_result }
                    &&& if seg[0]->TransferNative_result is Ok { fin == Self::distributed(v, coll) && res is Ok } else { fin == gone && res == seg[0]->TransferNative_result }
                },
                Payout::Split(x, n) => {
                    &&& seg.len() >= 1
                    &&& seg[0] == ProjectsCall::TransferAsset { asset: XUSD_ASSET_ID, from: pallet, to: p.project_owner, amount: x, result: seg[0]->TransferAsset_result }
                    &&& if seg[0]->TransferAsset_result is Err {
                        seg.len() == 1 && fin == gone && res == not_enough
                    } else {
                        &&& seg.len() == 2
                        &&& seg[1] == ProjectsCall::TransferNative { from: pallet, to: p.project_owner, amount: n, result: seg[1]->TransferNative_result }
                        &&& if seg[1]->TransferNative_result is Ok { fin == Self::distributed(v, coll) && res is Ok } else { fin == gone && res == seg[1]->TransferNative_result }
                    }
                },
            }
        }
    }

    /// Distributes funds after a successful voting for the project: the payout of the next
    /// milestone goes from the pallet's account to the project owner. When a transfer fails
    /// the project is no longer ongoing, as in the runtime, which does not roll the hook back.
    pub fn distribute_funds<R: ProjectsRuntime>(&mut self, collection_id: CollectionId, runtime: &mut R) -> (res: Result<(), DispatchError>)
        requires
            old(self)@.projects.dom().contains(collection_id) ==> payout_fits(old(self)@.projects[collection_id]),
        ensures
            !old(self)@.projects.dom().contains(collection_id) ==> {
                &&& res == Err::<(), DispatchError>(DispatchError::Module(Error::InvalidIndex))
                &&& final(self)@ == old(self)@
                &&& final(self).calls@ == old(self).calls@
            },
            old(self)@.projects.dom().contains(collection_id) ==> {
                &&& final(self).calls@.len() >= old(self).calls@.len()
                &&& final(self).calls@.subrange(0, old(self).calls@.len() as int) == old(self).calls@
                &&& Self::distribute_made(old(self)@, collection_id, calls_since(old(self).calls@, final(self).calls@), final(self)@, res)
            },
    {
        let ghost v0 = self@;
        let mut project = match self.ongoing_projects.remove(&collection_id) {
            Some(p) => p,
            None => {
                return Err(DispatchError::Module(Error::InvalidIndex));
            },
        };
        let ghost removed = self@;
        assert(removed =~= ProjectsView { projects: v0.projects.remove(collection_id), ..v0 });
        let pallet = self.config.pallet_account;
        let owner = project.project_owner;
        let ghost k = self.calls@.len();
        proof { assert(calls_since(old(self).calls@, self.calls@) =~= Seq::<ProjectsCall>::empty()); }
        match payout_of(&project) {
            Ok(Payout::Xusd(amount)) => {
                let r = runtime.transfer_asset(XUSD_ASSET_ID, pallet, owner, amount);
                self.calls = Ghost(self.calls@.push(ProjectsCall::TransferAsset { asset: XUSD_ASSET_ID, from: pallet, to: owner, amount, result: r }));
                proof { assert(self.calls@.subrange(0, old(self).calls@.len() as int) =~= old(self).calls@); }
                proof { assert(calls_since(old(self).calls@, self.calls@) =~= seq![ProjectsCall::TransferAsset { asset: XUSD_ASSET_ID, from: pallet, to: owner, amount, result: r }]); }
                if r.is_err() {
                    return Err(DispatchError::Module(Error::NotEnoughFunds));
                }
            },
            Ok(Payout::Native(amount)) => {
                let r = runtime.transfer_native(pallet, owner, amount);
                self.calls = Ghost(self.calls@.push(ProjectsCall::TransferNative { from: pallet, to: owner, amount, result: r }));
                proof { assert(self.calls@.subrange(0, old(self).calls@.len() as int) =~= old(self).calls@); }
                proof { assert(calls_since(old(self).calls@, self.calls@) =~= seq![ProjectsCall::TransferNative { from: pallet, to: owner, amount, result: r }]); }
                match r {
                    Ok(()) => {},
                    Err(e) => {
                        return Err(e);
                    },
                }
            },
            Ok(Payout::Split(xusd, native)) => {
                let r = runtime.transfer_asset(XUSD_ASSET_ID, pallet, owner, xusd);
                self.calls = Ghost(self.calls@.push(ProjectsCall::TransferAsset { asset: XUSD_ASSET_ID, from: pallet, to: owner, amount: xusd, result: r }));
                proof { assert(self.calls@.subrange(0, old(self).calls@.len() as int) =~= old(self).calls@); }
                proof { assert(calls_since(old(self).calls@, self.calls@) =~= seq![ProjectsCall::TransferAsset { asset: XUSD_ASSET_ID, from: pallet, to: owner, amount: xusd, result: r }]); }
                if r.is_err() {
                    return Err(DispatchError::Module(Error::NotEnoughFunds));
                }
                let r2 = runtime.transfer_native(pallet, owner, native);
                self.calls = Ghost(self.calls@.push(ProjectsCall::TransferNative { from: pallet, to: owner, amount: native, result: r2 }));
                proof { assert(self.calls@.subrange(0, old(self).calls@.len() as int) =~= old(self).calls@); }
                proof {
                    assert(calls_since(old(self).calls@, self.calls@) =~= seq![
                        ProjectsCall::TransferAsset { asset: XUSD_ASSET_ID, from: pallet, to: owner, amount: xusd, result: r },
                        ProjectsCall::TransferNative { from: pallet, to: owner, amount: native, result: r2 },
                    ]);
                }
                match r2 {
                    Ok(()) => {},
                    Err(e) => {
                        return Err(e);
                    },
                }
            },
            Err(e) => {
                proof {
                    assert(self@ == removed);
                    assert(self.calls@.subrange(0, old(self).calls@.len() as int) =~= old(self).calls@);
                }
                return Err(DispatchError::Module(e));
            },
        }
        let amount = project.project_balance / project.milestones as u128;
        project.remaining_milestones = project.remaining_milestones.saturating_sub(1);
        project.strikes = 0;
        self.ongoing_projects.insert(collection_id, project);
        self.events.push(Event::FundsDestributed { collection_index: collection_id, owner, amount });
        assert(self@ =~= Self::distributed(v0, collection_id));
        Ok(())
    }

    /// Whether the hook can pay the next milestone of `coll` (or find it missing) without an
    /// arithmetic fault.
    fn can_distribute(&self, collection_id: CollectionId) -> (r: bool)
        ensures
            r == (self@.projects.dom().contains(collection_id) ==> payout_fits(self@.projects[collection_id])),
    {
        match self.ongoing_projects.get(&collection_id) {
            Some(p) => {
                if p.milestones == 0 {
                    return false;
                }
                let fr: u128 = p.project_balance / p.milestones as u128;
                match fr.checked_mul(p.remaining_milestones as u128) {
                    Some(rf) => p.project_bonding_balance > u64::MAX as u128 || p.project_bonding_balance <= rf,
                    None => false,
                }
            },
            None => true,
        }
    }

    /// Whether the hook can give `coll` a strike (or find it missing) without an arithmetic
    /// fault.
    fn can_strike(&self, collection_id: CollectionId) -> (r: bool)
        ensures
            r == (self@.projects.dom().contains(collection_id) ==> (self@.projects[collection_id].strikes < u8::MAX
                && self@.projects[collection_id].milestones > 0)),
    {
        match self.ongoing_projects.get(&collection_id) {
            Some(p) => p.strikes < u8::MAX && p.milestones > 0,
            None => true,
        }
    }

    /// Whether the hook can start a milestone period of `coll` (or find it missing) without
    /// an arithmetic fault.
    fn can_schedule(&self, collection_id: CollectionId) -> (r: bool)
        ensures
            r == (self@.projects.dom().contains(collection_id) ==> self@.projects[collection_id].duration * 10 <= u32::MAX),
    {
        match self.ongoing_projects.get(&collection_id) {
            Some(p) => p.duration <= u32::MAX / 10,
            None => true,
        }
    }

    /// The project `c` once its milestone period ended: a voting period opens, unless too many
    /// votings end at the same block, in which case only its votes are set to zero.
    pub open spec fn voting_opened(v: ProjectsView, c: CollectionId) -> ProjectsView {
        let end = sat_add(v.block_number as int, VOTING_PERIOD as int);
        if ending_at(v.voting_expiring, end).len() < v.config.max_ongoing_projects {
            Self::voting_started(v, c)
        } else {
            ProjectsView { votes: v.votes.insert(c, VoteStats { yes_votes: 0, no_votes: 0 }), ..v }
        }
    }

    /// What the end of the voting on `item` decides, from `v` with the calls `before` made so
    /// far: without a vote nothing; otherwise the vote is dropped, and more yes than no votes
    /// pay the next milestone (skipped where the payout would overflow), while a tie or more no
    /// votes give the project a strike (skipped where it would overflow or no milestone is
    /// left).
    pub open spec fn voting_decided(
        v: ProjectsView,
        item: CollectionId,
        before: Seq<ProjectsCall>,
        after: Seq<ProjectsCall>,
        mid: ProjectsView,
        res: Result<(), DispatchError>,
    ) -> bool {
        let v1 = ProjectsView { votes: v.votes.remove(item), ..v };
        if !v.votes.contains_key(item) {
            mid == v && after == before
        } else if v.votes[item].yes_votes > v.votes[item].no_votes {
            if !v1.projects.dom().contains(item) {
                mid == v1 && after == before && res == Err::<(), DispatchError>(DispatchError::Module(Error::InvalidIndex))
            } else if !payout_fits(v1.projects[item]) {
                mid == v1 && after == before
            } else {
                &&& after.len() >= before.len()
                &&& after.subrange(0, before.len() as int) == before
                &&& Self::distribute_made(v1, item, calls_since(before, after), mid, res)
            }
        } else if v1.projects.dom().contains(item) && v1.projects[item].strikes < u8::MAX && v1.projects[item].milestones > 0 {
            mid == Self::struck(v1, item) && after == before
        } else {
            mid == v1 && after == before
        }
    }

    /// The project `item` once its voting was decided: a project with milestones left starts
    /// its next milestone period (unless too many end at the same block, or its period would
    /// overflow), the others end; its voters are cleared.
    pub open spec fn voting_closed(v: ProjectsView, item: CollectionId) -> ProjectsView {
        let w = if !v.projects.dom().contains(item) {
            v
        } else if v.projects[item].remaining_milestones >= 1 {
            if v.projects[item].duration * 10 > u32::MAX {
                v
            } else {
                let end = sat_add(v.block_number as int, milestone_period(v.projects[item].duration) as int);
                if ending_at(v.milestone_expiring, end).len() < v.config.max_ongoing_projects {
                    Self::milestone_started(v, item)
                } else {
                    v
                }
            }
        } else {
            Self::completed(v, item)
        };
        ProjectsView { voted: cleared(w.voted, item), ..w }
    }

    /// What the block hook at block `n` leads to, from `v` with the calls `c` made so far: each
    /// project whose milestone period ends at `n` opens a voting (through the states `vs1`),
    /// then each voting ending at `n` is decided (reaching `mids`, with the calls `cs2` and the
    /// results `rs`) and closed (reaching the states `vs2`), in the order they were scheduled;
    /// `fin` and `cfin` are the pool and the calls at the end.
    pub open spec fn hook_made(
        v: ProjectsView,
        c: Seq<ProjectsCall>,
        n: BlockNumber,
        vs1: Seq<ProjectsView>,
        vs2: Seq<ProjectsView>,
        mids: Seq<ProjectsView>,
        cs2: Seq<Seq<ProjectsCall>>,
        rs: Seq<Result<(), DispatchError>>,
        fin: ProjectsView,
        cfin: Seq<ProjectsCall>,
    ) -> bool {
        let a = ending_at(v.milestone_expiring, n);
        let b = ending_at(vs1.last().voting_expiring, n);
        &&& vs1.len() == a.len() + 1
        &&& vs1[0] == (ProjectsView { block_number: n, milestone_expiring: v.milestone_expiring.remove(n), ..v })
        &&& forall|j: int| 0 <= j < a.len() ==> vs1[j + 1] == Self::voting_opened(vs1[j], #[trigger] a[j])
        &&& vs2.len() == b.len() + 1
        &&& cs2.len() == b.len() + 1
        &&& mids.len() == b.len()
        &&& rs.len() == b.len()
        &&& vs2[0] == (ProjectsView { voting_expiring: vs1.last().voting_expiring.remove(n), ..vs1.last() })
        &&& cs2[0] == c
        &&& forall|j: int| 0 <= j < b.len() ==> {
            &&& Self::voting_decided(vs2[j], #[trigger] b[j], cs2[j], cs2[j + 1], mids[j], rs[j])
            &&& vs2[j + 1] == Self::voting_closed(mids[j], b[j])
        }
        &&& fin == vs2.last()
        &&& cfin == cs2.last()
    }

    /// The block hook at block `n`: the projects whose milestone period ends open a voting
    /// period; for those whose voting ends, more yes than no votes pays the next milestone,
    /// otherwise the project gets a strike; then the project starts its next milestone period,
    /// or ends when none is left, and its voters are cleared. What a step does before it fails
    /// stays, as in the runtime; a step on which the runtime would fault (an overflow or a
    /// division by zero) is skipped.
    pub fn on_initialize<R: ProjectsRuntime>(&mut self, n: BlockNumber, runtime: &mut R)
        ensures
            exists|
                vs1: Seq<ProjectsView>,
                vs2: Seq<ProjectsView>,
                mids: Seq<ProjectsView>,
                cs2: Seq<Seq<ProjectsCall>>,
                rs: Seq<Result<(), DispatchError>>,
            | #[trigger] Self::hook_made(old(self)@, old(self).calls@, n, vs1, vs2, mids, cs2, rs, final(self)@, final(self).calls@),
    {
        let ghost v_old = self@;
        let ghost c_old = self.calls@;
        self.block_number = n;
        let ended_milestone = take_round(&mut self.milestone_period_expiring, n);
        assert(self@ =~= (ProjectsView { block_number: n, milestone_expiring: v_old.milestone_expiring.remove(n), ..v_old }));
        let ghost mut vs1: Seq<ProjectsView> = seq![self@];
        let mut i: usize = 0;
        while i < ended_milestone.len()
            invariant
                0 <= i <= ended_milestone.len(),
                vs1.len() == i + 1,
                vs1[0] == (ProjectsView { block_number: n, milestone_expiring: v_old.milestone_expiring.remove(n), ..v_old }),
                vs1.last() == self@,
                self.calls@ == c_old,
                forall|j: int| 0 <= j < i ==> vs1[j + 1] == Self::voting_opened(vs1[j], #[trigger] ended_milestone@[j]),
            decreases ended_milestone.len() - i,
        {
            let _ = self.start_voting_period(ended_milestone[i]);
            proof {
                let o = vs1;
                vs1 = o.push(self@);
                assert forall|j: int| 0 <= j < i + 1 implies vs1[j + 1] == Self::voting_opened(vs1[j], #[trigger] ended_milestone@[j]) by {
                    if j < i {
                        assert(o[j + 1] == Self::voting_opened(o[j], ended_milestone@[j]));
                    }
                }
            }
            i = i + 1;
        }
        let ended_voting = take_round(&mut self.voting_period_expiring, n);
        assert(self@ =~= (ProjectsView { voting_expiring: vs1.last().voting_expiring.remove(n), ..vs1.last() }));
        let ghost mut vs2: Seq<ProjectsView> = seq![self@];
        let ghost mut cs2: Seq<Seq<ProjectsCall>> = seq![self.calls@];
        let ghost mut mids: Seq<ProjectsView> = Seq::empty();
        let ghost mut rs: Seq<Result<(), DispatchError>> = Seq::empty();
        let mut i: usize = 0;
        while i < ended_voting.len()
            invariant
                0 <= i <= ended_voting.len(),
                vs2.len() == i + 1,
                cs2.len() == i + 1,
                mids.len() == i,
                rs.len() == i,
                vs2[0] == (ProjectsView { voting_expiring: vs1.last().voting_expiring.remove(n), ..vs1.last() }),
                cs2[0] == c_old,
                vs2.last() == self@,
                cs2.last() == self.calls@,
                forall|j: int| 0 <= j < i ==> {
                    &&& Self::voting_decided(vs2[j], #[trigger] ended_voting@[j], cs2[j], cs2[j + 1], mids[j], rs[j])
                    &&& vs2[j + 1] == Self::voting_closed(mids[j], ended_voting@[j])
                },
            decreases ended_voting.len() - i,
        {
            let item = ended_voting[i];
            let r = self.decide_voting(item, runtime);
            let ghost mid = self@;
            self.close_voting(item);
            proof {
                let ovs = vs2;
                let ocs = cs2;
                let om = mids;
                let ors = rs;
                vs2 = ovs.push(self@);
                cs2 = ocs.push(self.calls@);
                mids = om.push(mid);
                rs = ors.push(r);
                assert forall|j: int| 0 <= j < i + 1 implies {
                    &&& Self::voting_decided(vs2[j], #[trigger] ended_voting@[j], cs2[j], cs2[j + 1], mids[j], rs[j])
                    &&& vs2[j + 1] == Self::voting_closed(mids[j], ended_voting@[j])
                } by {
                    if j < i {
                        assert(Self::voting_decided(ovs[j], ended_voting@[j], ocs[j], ocs[j + 1], om[j], ors[j]));
                        assert(ovs[j + 1] == Self::voting_closed(om[j], ended_voting@[j]));
                    }
                }
            }
            i = i + 1;
        }
        proof {
            assert(Self::hook_made(v_old, c_old, n, vs1, vs2, mids, cs2, rs, self@, self.calls@));
        }
    }

    /// Decides the voting on `item` once it ended, as the block hook does.
    fn decide_voting<R: ProjectsRuntime>(&mut self, item: CollectionId, runtime: &mut R) -> (res: Result<(), DispatchError>)
        ensures
            Self::voting_decided(old(self)@, item, old(self).calls@, final(self).calls@, final(self)@, res),
    {
        let ghost v0 = self@;
        let voting_result = self.ongoing_votes.remove(&item);
        match voting_result {
            Some(result) => {
                assert(self@ =~= (ProjectsView { votes: v0.votes.remove(item), ..v0 }));
                if result.yes_votes > result.no_votes {
                    if self.can_distribute(item) {
                        let r = self.distribute_funds(item, runtime);
                        proof {
                            if v0.projects.dom().contains(item) {
                                assert(calls_since(old(self).calls@, self.calls@) == self.calls@.subrange(old(self).calls@.len() as int, self.calls@.len() as int));
                            }
                        }
                        return r;
                    }
                    Ok(())
                } else {
                    if self.can_strike(item) {
                        let _ = self.ckeck_strikes(item);
                    }
                    Ok(())
                }
            },
            None => {
                assert(self@ =~= v0);
                Ok(())
            },
        }
    }

    /// Closes the voting on `item` once it was decided, as the block hook does.
    fn close_voting(&mut self, item: CollectionId)
        ensures
            final(self)@ == Self::voting_closed(old(self)@, item),
            final(self).calls@ == old(self).calls@,
    {
        let remaining = match self.ongoing_projects.get(&item) {
            Some(p) => Some(p.remaining_milestones),
            None => None,
        };
        match remaining {
            Some(r) => {
                if r >= 1 {
                    if self.can_schedule(item) {
                        let _ = self.start_milestone_period(item);
                    }
                } else {
                    let _ = self.delete_project(item);
                }
            },
            None => {},
        }
        let ghost w = self@;
        clear_members(&mut self.voted_user, item);
        assert(self@ =~= (ProjectsView { voted: cleared(w.voted, item), ..w }));
    }
}

/// The bonded amount of `who` on `coll` (zero when none).
pub open spec fn bonded_of(v: ProjectsView, coll: CollectionId, who: AccountId) -> Balance {
    match entry(v.bonding, coll, who) {
        Some(b) => b,
        None => 0,
    }
}

/// The total bonded amount of `who` (zero when none).
pub open spec fn user_bonded_of(v: ProjectsView, who: AccountId) -> Balance {
    if v.user_bonded.dom().contains(who) { v.user_bonded[who] } else { 0 }
}

/// The xUSD refunded to a holder of `power` when `percentage` hundredths of a percent of a
/// project remain.
pub open spec fn refund_of(power: u64, percentage: u32) -> u64 {
    let scaled: int = if power * percentage > u64::MAX { u64::MAX as int } else { power * percentage };
    (scaled / 10000) as u64
}

/// An ended project once nothing is left to claim from it is forgotten.
pub open spec fn store_ended(m: Map<CollectionId, EndedProjectDetails>, coll: CollectionId, e: EndedProjectDetails) -> Map<CollectionId, EndedProjectDetails> {
    if e.bonding_balance == 0 && e.remaining_balance == 0 { m.remove(coll) } else { m.insert(coll, e) }
}

impl Pallet {
    /// Why bonding to `coll` would be refused before the balances are read.
    pub open spec fn bond_error(v: ProjectsView, origin: Origin, whitelist: Set<AccountId>, coll: CollectionId) -> Option<DispatchError> {
        if signer_error(origin, whitelist) is Some {
            signer_error(origin, whitelist)
        } else if !v.projects.dom().contains(coll) {
            Some(DispatchError::Module(Error::InvalidIndex))
        } else if v.projects[coll].ongoing {
            Some(DispatchError::Module(Error::ProjectOngoing))
        } else {
            None
        }
    }

    /// What bonding takes of a requested `amount`: all of it, or what the bonder's free
    /// balance (`free`, as the runtime reported it) holds beyond the minimum it keeps.
    pub open spec fn bonding_amount(amount: Balance, free: Balance, min_remaining: Balance) -> Balance {
        let available: Balance = if free >= min_remaining { (free - min_remaining) as Balance } else { 0 };
        if amount <= available { amount } else { available }
    }

    /// Why bonding `b` to `coll` would be refused once the pallet's free balance (`pallet_free`,
    /// as the runtime reported it) is known.
    pub open spec fn bond_check(v: ProjectsView, coll: CollectionId, who: AccountId, b: Balance, pallet_free: Balance) -> Option<DispatchError> {
        let p = v.projects[coll];
        let min_remaining = v.config.minimum_remaining_amount;
        let spare: Balance = if pallet_free >= min_remaining { (pallet_free - min_remaining) as Balance } else { 0 };
        let overflow = Some(DispatchError::Module(Error::ArithmeticOverflow));
        if v.total_bonded + b > u128::MAX {
            overflow
        } else if spare < v.total_bonded + b {
            Some(DispatchError::Module(Error::NotEnoughBondingFundsAvailable))
        } else if p.project_bonding_balance + b > u128::MAX {
            overflow
        } else if p.project_bonding_balance + b > u64::MAX {
            Some(DispatchError::Module(Error::ConversionError))
        } else if p.project_price / 10 < p.project_bonding_balance + b {
            Some(DispatchError::Module(Error::ProjectCanOnlyHave10PercentBonding))
        } else if p.project_balance + b > u128::MAX {
            overflow
        } else if bonded_of(v, coll, who) + b > u128::MAX || user_bonded_of(v, who) + b > u128::MAX {
            overflow
        } else {
            None
        }
    }

    /// Whether bonding `b` completes the funding of `coll`, which launches it.
    pub open spec fn bond_launches(v: ProjectsView, coll: CollectionId, b: Balance) -> bool {
        v.projects[coll].project_balance + b >= v.projects[coll].project_price
    }

    /// The pallet once the project `coll` holds `b` more, bonded.
    pub open spec fn bond_funded(v: ProjectsView, coll: CollectionId, b: Balance) -> ProjectsView {
        let p = v.projects[coll];
        ProjectsView {
            projects: v.projects.insert(coll, ProjectDetails {
                project_bonding_balance: (p.project_bonding_balance + b) as Balance,
                project_balance: (p.project_balance + b) as Balance,
                ..p
            }),
            ..v
        }
    }

    /// The pallet once `who` bonded `b` to project `coll`; the project launches when this
    /// completes its funding.
    pub open spec fn bonded(v: ProjectsView, coll: CollectionId, who: AccountId, b: Balance) -> ProjectsView {
        let p = v.projects[coll];
        let p1 = ProjectDetails {
            project_bonding_balance: (p.project_bonding_balance + b) as Balance,
            project_balance: (p.project_balance + b) as Balance,
            ..p
        };
        let w1 = ProjectsView { projects: v.projects.insert(coll, p1), ..v };
        let w2 = if p1.project_balance >= p1.project_price { Self::launched(w1, coll) } else { w1 };
        ProjectsView {
            bonding: with_entry(w2.bonding, coll, who, (bonded_of(v, coll, who) + b) as Balance),
            user_bonded: w2.user_bonded.insert(who, (user_bonded_of(v, who) + b) as Balance),
            total_bonded: (v.total_bonded + b) as Balance,
            events: w2.events.push(Event::TokenBonded { collection_index: coll, origin: who, amount: b }),
            ..w2
        }
    }

    /// A user can lock native tokens to a project to raise funds: up to `amount`, as far as
    /// the user's free balance allows beyond the minimum it keeps, while the pallet's free
    /// balance covers all that is bonded and bonding finances at most a tenth of the project.
    /// The two free balances are read from the runtime, and the bonder's lock is set to all it
    /// bonded.
    pub fn bond_token<R: ProjectsRuntime>(
        &mut self,
        origin: Origin,
        collection_id: CollectionId,
        amount: Balance,
        whitelist: &BTreeSet<AccountId>,
        runtime: &mut R,
    ) -> (res: Result<(), DispatchError>)
        ensures
            res is Err ==> final(self)@ == old(self)@,
            Self::bond_error(old(self)@, origin, whitelist@, collection_id) is Some ==> {
                &&& res == Err::<(), DispatchError>(Self::bond_error(old(self)@, origin, whitelist@, collection_id)->Some_0)
                &&& final(self).calls@ == old(self).calls@
            },
            Self::bond_error(old(self)@, origin, whitelist@, collection_id) is None ==> {
                let who = origin->Signed_0;
                let v = old(self)@;
                let seg = calls_since(old(self).calls@, final(self).calls@);
                let b = Self::bonding_amount(amount, seg[0]->FreeBalance_balance, v.config.minimum_remaining_amount);
                &&& final(self).calls@.len() >= old(self).calls@.len() + 2
                &&& final(self).calls@.subrange(0, old(self).calls@.len() as int) == old(self).calls@
                &&& seg[0] == ProjectsCall::FreeBalance { who, balance: seg[0]->FreeBalance_balance }
                &&& seg[1] == ProjectsCall::FreeBalance { who: v.config.pallet_account, balance: seg[1]->FreeBalance_balance }
                &&& match Self::bond_check(v, collection_id, who, b, seg[1]->FreeBalance_balance) {
                    Some(e) => res == Err::<(), DispatchError>(e) && seg.len() == 2,
                    None => {
                        let launch_seg = seg.subrange(2, seg.len() - (if res is Ok { 1int } else { 0int }));
                        &&& res is Ok ==> {
                            &&& final(self)@ == Self::bonded(v, collection_id, who, b)
                            &&& seg.len() >= 3
                            &&& seg.last() == ProjectsCall::SetLock { id: BONDING_LOCK_ID, who, amount: (user_bonded_of(v, who) + b) as Balance }
                        }
                        &&& !Self::bond_launches(v, collection_id, b) ==> res is Ok && launch_seg.len() == 0
                        &&& Self::bond_launches(v, collection_id, b) ==> Self::launch_made(
                            Self::bond_funded(v, collection_id, b),
                            collection_id,
                            launch_seg,
                            res,
                        )
                    },
                }
            },
    {
        let saved = self.snapshot();
        let res = self.bond_token_inner(origin, collection_id, amount, whitelist, runtime);
        if res.is_err() {
            let calls = Ghost(self.calls@);
            *self = saved;
            self.calls = calls;
        }
        res
    }

    fn bond_token_inner<R: ProjectsRuntime>(
        &mut self,
        origin: Origin,
        collection_id: CollectionId,
        amount: Balance,
        whitelist: &BTreeSet<AccountId>,
        runtime: &mut R,
    ) -> (res: Result<(), DispatchError>)
        ensures
            Self::bond_error(old(self)@, origin, whitelist@, collection_id) is Some ==> {
                &&& res == Err::<(), DispatchError>(Self::bond_error(old(self)@, origin, whitelist@, collection_id)->Some_0)
                &&& final(self).calls@ == old(self).calls@
            },
            Self::bond_error(old(self)@, origin, whitelist@, collection_id) is None ==> {
                let who = origin->Signed_0;
                let v = old(self)@;
                let seg = calls_since(old(self).calls@, final(self).calls@);
                let b = Self::bonding_amount(amount, seg[0]->FreeBalance_balance, v.config.minimum_remaining_amount);
                &&& final(self).calls@.len() >= old(self).calls@.len() + 2
                &&& final(self).calls@.subrange(0, old(self).calls@.len() as int) == old(self).calls@
                &&& seg[0] == ProjectsCall::FreeBalance { who, balance: seg[0]->FreeBalance_balance }
                &&& seg[1] == ProjectsCall::FreeBalance { who: v.config.pallet_account, balance: seg[1]->FreeBalance_balance }
                &&& match Self::bond_check(v, collection_id, who, b, seg[1]->FreeBalance_balance) {
                    Some(e) => res == Err::<(), DispatchError>(e) && seg.len() == 2,
                    None => {
                        let launch_seg = seg.subrange(2, seg.len() - (if res is Ok { 1int } else { 0int }));
                        &&& res is Ok ==> {
                            &&& final(self)@ == Self::bonded(v, collection_id, who, b)
                            &&& seg.len() >= 3
                            &&& seg.last() == ProjectsCall::SetLock { id: BONDING_LOCK_ID, who, amount: (user_bonded_of(v, who) + b) as Balance }
                        }
                        &&& !Self::bond_launches(v, collection_id, b) ==> res is Ok && launch_seg.len() == 0
                        &&& Self::bond_launches(v, collection_id, b) ==> Self::launch_made(
                            Self::bond_funded(v, collection_id, b),
                            collection_id,
                            launch_seg,
                            res,
                        )
                    },
                }
            },
    {
        let ghost v0 = self@;
        let who = match whitelisted_signer(origin, whitelist) {
            Ok(a) => a,
            Err(e) => {
                return Err(e);
            },
        };
        let mut project = match self.ongoing_projects.get(&collection_id) {
            Some(p) => *p,
            None => {
                return Err(DispatchError::Module(Error::InvalidIndex));
            },
        };
        if project.ongoing {
            return Err(DispatchError::Module(Error::ProjectOngoing));
        }
        let total_bonded = self.total_bonded;
        let min_remaining = self.config.minimum_remaining_amount;
        let pallet = self.config.pallet_account;
        let free = runtime.free_balance(who);
        self.calls = Ghost(self.calls@.push(ProjectsCall::FreeBalance { who, balance: free }));
        let available_balance = free.saturating_sub(min_remaining);
        let bonding_amount = if amount <= available_balance { amount } else { available_balance };
        let pallet_free_raw = runtime.free_balance(pallet);
        self.calls = Ghost(self.calls@.push(ProjectsCall::FreeBalance { who: pallet, balance: pallet_free_raw }));
        proof {
            assert(self.calls@.subrange(0, old(self).calls@.len() as int) =~= old(self).calls@);
            assert(calls_since(old(self).calls@, self.calls@) =~= seq![
                ProjectsCall::FreeBalance { who, balance: free },
                ProjectsCall::FreeBalance { who: pallet, balance: pallet_free_raw },
            ]);
        }
        let pallet_free = pallet_free_raw.saturating_sub(min_remaining);
        let needed = match total_bonded.checked_add(bonding_amount) {
            Some(x) => x,
            None => {
                return Err(DispatchError::Module(Error::ArithmeticOverflow));
            },
        };
        if pallet_free < needed {
            return Err(DispatchError::Module(Error::NotEnoughBondingFundsAvailable));
        }
        project.project_bonding_balance = match project.project_bonding_balance.checked_add(bonding_amount) {
            Some(x) => x,
            None => {
                return Err(DispatchError::Module(Error::ArithmeticOverflow));
            },
        };
        let bonding_balance = match balance_to_u64(project.project_bonding_balance) {
            Ok(x) => x,
            Err(e) => {
                return Err(DispatchError::Module(e));
            },
        };
        if project.project_price / 10 < bonding_balance as u128 {
            return Err(DispatchError::Module(Error::ProjectCanOnlyHave10PercentBonding));
        }
        project.project_balance = match project.project_balance.checked_add(bonding_amount) {
            Some(x) => x,
            None => {
                return Err(DispatchError::Module(Error::ArithmeticOverflow));
            },
        };
        let current_bonding = match get_entry(&self.project_bonding, collection_id, who) {
            Some(b) => b,
            None => 0,
        };
        let new_bonding = match current_bonding.checked_add(bonding_amount) {
            Some(x) => x,
            None => {
                return Err(DispatchError::Module(Error::ArithmeticOverflow));
            },
        };
        let user_before = match self.user_bonded_amount.get(&who) {
            Some(b) => *b,
            None => 0,
        };
        let user_total = match user_before.checked_add(bonding_amount) {
            Some(x) => x,
            None => {
                return Err(DispatchError::Module(Error::ArithmeticOverflow));
            },
        };
        self.ongoing_projects.insert(collection_id, project);
        let ghost w1 = self@;
        assert(w1 =~= ProjectsView {
            projects: v0.projects.insert(collection_id, ProjectDetails {
                project_bonding_balance: (v0.projects[collection_id].project_bonding_balance + bonding_amount) as Balance,
                project_balance: (v0.projects[collection_id].project_balance + bonding_amount) as Balance,
                ..v0.projects[collection_id]
            }),
            ..v0
        });
        let ghost before_launch = self.calls@;
        let ghost launched_now = project.project_balance >= project.project_price;
        if project.project_balance >= project.project_price {
            let launch = self.launch_project(collection_id, runtime);
            proof {
                assert(self.calls@.subrange(0, old(self).calls@.len() as int) =~= old(self).calls@);
                assert(calls_since(old(self).calls@, self.calls@).subrange(2, calls_since(old(self).calls@, self.calls@).len() as int)
                    =~= calls_since(before_launch, self.calls@));
            }
            match launch {
                Ok(()) => {},
                Err(e) => {
                    return Err(e);
                },
            }
        }
        let ghost w2 = self@;
        let ghost after_launch = self.calls@;
        set_entry(&mut self.project_bonding, collection_id, who, new_bonding);
        self.user_bonded_amount.insert(who, user_total);
        runtime.set_lock(BONDING_LOCK_ID, who, user_total);
        self.calls = Ghost(self.calls@.push(ProjectsCall::SetLock { id: BONDING_LOCK_ID, who, amount: user_total }));
        proof {
            assert(self.calls@.subrange(0, old(self).calls@.len() as int) =~= old(self).calls@);
            let seg = calls_since(old(self).calls@, self.calls@);
            assert(seg.subrange(2, seg.len() - 1) =~= calls_since(before_launch, after_launch));
            assert(seg[0] == ProjectsCall::FreeBalance { who, balance: free });
            assert(seg[1] == ProjectsCall::FreeBalance { who: pallet, balance: pallet_free_raw });
            if !launched_now {
                assert(calls_since(before_launch, after_launch) =~= Seq::<ProjectsCall>::empty());
            }
        }
        self.total_bonded = needed;
        self.events.push(Event::TokenBonded { collection_index: collection_id, origin: who, amount: bonding_amount });
        assert(self@ =~= Self::bonded(v0, collection_id, who, bonding_amount));
        Ok(())
    }

    /// Why claiming the refund of `coll` would be refused.
    pub open spec fn refund_error(v: ProjectsView, origin: Origin, coll: CollectionId) -> Option<DispatchError> {
        match origin {
            Origin::Signed(who) => if !v.ended_projects.dom().contains(coll) {
                Some(DispatchError::Module(Error::InvalidIndex))
            } else if !members(v.holders, coll).contains(who) {
                Some(DispatchError::Module(Error::InsufficientPermission))
            } else if entry(v.voting_power, coll, who) is None {
                Some(DispatchError::Module(Error::NoFundsRemaining))
            } else {
                None
            },
            _ => Some(DispatchError::BadOrigin),
        }
    }

    /// The refund that `who` claims from the ended project `coll`.
    pub open spec fn refund_amount(v: ProjectsView, coll: CollectionId, who: AccountId) -> u64 {
        refund_of(power_of(v, coll, who), v.ended_projects[coll].remaining_percentage)
    }

    /// The pallet once `who` claimed the refund of the ended project `coll`.
    pub open spec fn refunded(v: ProjectsView, coll: CollectionId, who: AccountId) -> ProjectsView {
        let e = v.ended_projects[coll];
        ProjectsView {
            holders: without_member(v.holders, coll, who),
            voting_power: without_entry(v.voting_power, coll, who),
            ended_projects: store_ended(v.ended_projects, coll, EndedProjectDetails {
                remaining_balance: (e.remaining_balance - Self::refund_amount(v, coll, who)) as Balance,
                ..e
            }),
            events: v.events.push(Event::TokenRefunded { collection_index: coll, user: who }),
            ..v
        }
    }

    /// A holder of a failed project claims back its share of what is left, in xUSD, from the
    /// pallet's account.
    pub fn claim_refunded_token<R: ProjectsRuntime>(&mut self, origin: Origin, collection_id: CollectionId, runtime: &mut R) -> (res: Result<(), DispatchError>)
        requires
            Self::refund_error(old(self)@, origin, collection_id) is None ==> Self::refund_amount(old(self)@, collection_id, origin->Signed_0)
                <= old(self)@.ended_projects[collection_id].remaining_balance,
        ensures
            res is Err ==> final(self)@ == old(self)@,
            Self::refund_error(old(self)@, origin, collection_id) is Some ==> res == Err::<(), DispatchError>(
                Self::refund_error(old(self)@, origin, collection_id)->Some_0,
            ),
            res is Ok ==> final(self)@ == Self::refunded(old(self)@, collection_id, origin->Signed_0),
            Self::refund_error(old(self)@, origin, collection_id) is Some ==> final(self).calls@ == old(self).calls@,
            Self::refund_error(old(self)@, origin, collection_id) is None ==> {
                let calls = final(self).calls@;
                let who = origin->Signed_0;
                &&& calls.len() == old(self).calls@.len() + 1
                &&& calls.drop_last() == old(self).calls@
                &&& calls.last() == ProjectsCall::TransferAsset {
                    asset: XUSD_ASSET_ID,
                    from: old(self)@.config.pallet_account,
                    to: who,
                    amount: Self::refund_amount(old(self)@, collection_id, who) as Balance,
                    result: calls.last()->TransferAsset_result,
                }
                &&& if calls.last()->TransferAsset_result is Err {
                    res == Err::<(), DispatchError>(DispatchError::Module(Error::NotEnoughFunds))
                } else {
                    res is Ok
                }
            },
    {
        let who = match origin {
            Origin::Signed(a) => a,
            _ => {
                return Err(DispatchError::BadOrigin);
            },
        };
        let mut ended_project = match self.ended_projects.get(&collection_id) {
            Some(e) => *e,
            None => {
                return Err(DispatchError::Module(Error::InvalidIndex));
            },
        };
        if !has_member(&self.nft_holder, collection_id, who) {
            return Err(DispatchError::Module(Error::InsufficientPermission));
        }
        let voting_power = match get_entry(&self.voting_power, collection_id, who) {
            Some(p) => p,
            None => {
                return Err(DispatchError::Module(Error::NoFundsRemaining));
            },
        };
        let percentage = ended_project.remaining_percentage;
        let scaled: u64 = match voting_power.checked_mul(percentage as u64) {
            Some(x) => x,
            None => u64::MAX,
        };
        let remaining_funds: u64 = scaled / 10000;
        let pallet = self.config.pallet_account;
        let paid: Result<(), DispatchError> = match runtime.transfer_asset(XUSD_ASSET_ID, pallet, who, remaining_funds as u128) {
            Ok(()) => Ok(()),
            Err(e) => Err(e),
        };
        self.calls = Ghost(self.calls@.push(ProjectsCall::TransferAsset {
            asset: XUSD_ASSET_ID,
            from: pallet,
            to: who,
            amount: remaining_funds as u128,
            result: paid,
        }));
        proof { assert(self.calls@.drop_last() =~= old(self).calls@); }
        if paid.is_err() {
            return Err(DispatchError::Module(Error::NotEnoughFunds));
        }
        let ghost v0 = self@;
        remove_member(&mut self.nft_holder, collection_id, who);
        let _ = take_entry(&mut self.voting_power, collection_id, who);
        ended_project.remaining_balance = ended_project.remaining_balance - remaining_funds as u128;
        if ended_project.bonding_balance == 0 && ended_project.remaining_balance == 0 {
            self.ended_projects.remove(&collection_id);
        } else {
            self.ended_projects.insert(collection_id, ended_project);
        }
        self.events.push(Event::TokenRefunded { collection_index: collection_id, user: who });
        assert(self@ =~= Self::refunded(v0, collection_id, who));
        Ok(())
    }

    /// Why claiming back the bonding of `coll` would be refused.
    pub open spec fn unbond_error(v: ProjectsView, origin: Origin, coll: CollectionId) -> Option<DispatchError> {
        match origin {
            Origin::Signed(who) => if !v.ended_projects.dom().contains(coll) {
                Some(DispatchError::Module(Error::InvalidIndex))
            } else if entry(v.bonding, coll, who) is None || !v.user_bonded.dom().contains(who) {
                Some(DispatchError::Module(Error::NoBondingYet))
            } else {
                None
            },
            _ => Some(DispatchError::BadOrigin),
        }
    }

    /// The pallet once `who` took back what it bonded to the ended project `coll`.
    pub open spec fn unbonded(v: ProjectsView, coll: CollectionId, who: AccountId) -> ProjectsView {
        let b = bonded_of(v, coll, who);
        let rest: int = if v.user_bonded[who] >= b { v.user_bonded[who] - b } else { 0 };
        let e = v.ended_projects[coll];
        ProjectsView {
            bonding: without_entry(v.bonding, coll, who),
            user_bonded: if rest == 0 { v.user_bonded.remove(who) } else { v.user_bonded.insert(who, rest as Balance) },
            total_bonded: (v.total_bonded - b) as Balance,
            ended_projects: store_ended(v.ended_projects, coll, EndedProjectDetails {
                bonding_balance: (e.bonding_balance - b) as Balance,
                ..e
            }),
            events: v.events.push(Event::TokenUnbonded { collection_index: coll, user: who }),
            ..v
        }
    }

    /// A user unlocks the native tokens it bonded to a project once the project ended: the
    /// lock keeps what the user still bonds to other projects.
    pub fn claim_bonding<R: ProjectsRuntime>(&mut self, origin: Origin, collection_id: CollectionId, runtime: &mut R) -> (res: Result<(), DispatchError>)
        requires
            Self::unbond_error(old(self)@, origin, collection_id) is None ==> {
                &&& bonded_of(old(self)@, collection_id, origin->Signed_0) <= old(self)@.total_bonded
                &&& bonded_of(old(self)@, collection_id, origin->Signed_0) <= old(self)@.ended_projects[collection_id].bonding_balance
            },
        ensures
            match Self::unbond_error(old(self)@, origin, collection_id) {
                Some(e) => res == Err::<(), DispatchError>(e) && final(self)@ == old(self)@,
                None => res is Ok && final(self)@ == Self::unbonded(old(self)@, collection_id, origin->Signed_0),
            },
            Self::unbond_error(old(self)@, origin, collection_id) is Some ==> final(self).calls@ == old(self).calls@,
            Self::unbond_error(old(self)@, origin, collection_id) is None ==> {
                let who = origin->Signed_0;
                let v = old(self)@;
                let b = bonded_of(v, collection_id, who);
                let rest: int = if v.user_bonded[who] >= b { v.user_bonded[who] - b } else { 0 };
                final(self).calls@ == old(self).calls@.push(
                    if rest == 0 {
                        ProjectsCall::RemoveLock { id: BONDING_LOCK_ID, who }
                    } else {
                        ProjectsCall::SetLock { id: BONDING_LOCK_ID, who, amount: rest as Balance }
                    },
                )
            },
    {
        let who = match origin {
            Origin::Signed(a) => a,
            _ => {
                return Err(DispatchError::BadOrigin);
            },
        };
        let mut ended_project = match self.ended_projects.get(&collection_id) {
            Some(e) => *e,
            None => {
                return Err(DispatchError::Module(Error::InvalidIndex));
            },
        };
        let user_project_bonding = match get_entry(&self.project_bonding, collection_id, who) {
            Some(b) => b,
            None => {
                return Err(DispatchError::Module(Error::NoBondingYet));
            },
        };
        let user_total_bonding = match self.user_bonded_amount.get(&who) {
            Some(b) => b.saturating_sub(user_project_bonding),
            None => {
                return Err(DispatchError::Module(Error::NoBondingYet));
            },
        };
        let ghost v0 = self@;
        let _ = take_entry(&mut self.project_bonding, collection_id, who);
        self.user_bonded_amount.remove(&who);
        if user_total_bonding == 0 {
            runtime.remove_lock(BONDING_LOCK_ID, who);
            self.calls = Ghost(self.calls@.push(ProjectsCall::RemoveLock { id: BONDING_LOCK_ID, who }));
        } else {
            runtime.set_lock(BONDING_LOCK_ID, who, user_total_bonding);
            self.calls = Ghost(self.calls@.push(ProjectsCall::SetLock { id: BONDING_LOCK_ID, who, amount: user_total_bonding }));
            self.user_bonded_amount.insert(who, user_total_bonding);
        }
        self.total_bonded = self.total_bonded - user_project_bonding;
        ended_project.bonding_balance = ended_project.bonding_balance - user_project_bonding;
        if ended_project.bonding_balance == 0 && ended_project.remaining_balance == 0 {
            self.ended_projects.remove(&collection_id);
        } else {
            self.ended_projects.insert(collection_id, ended_project);
        }
        self.events.push(Event::TokenUnbonded { collection_index: collection_id, user: who });
        assert(self@ =~= Self::unbonded(v0, collection_id, who));
        Ok(())
    }
}

/// The listed NFTs of type `t` of collection `coll`, if that type is listed.
pub open spec fn listed_of(v: ProjectsView, coll: CollectionId, t: u8) -> Option<Seq<ItemId>> {
    if v.listed.dom().contains(coll) && v.listed[coll].dom().contains(t) { Some(v.listed[coll][t]) } else { None }
}

/// The pallet once `who` bought the first listed NFT of type `t` of `coll`.
pub open spec fn buy_step(v: ProjectsView, coll: CollectionId, t: u8, who: AccountId) -> ProjectsView {
    let item = v.listed[coll][t][0];
    let nft = v.nft_details[coll][item];
    let p = v.projects[coll];
    ProjectsView {
        nft_details: without_entry(v.nft_details, coll, item),
        projects: v.projects.insert(coll, ProjectDetails { project_balance: (p.project_balance + nft.price) as Balance, ..p }),
        holders: with_member(v.holders, coll, who),
        voting_power: with_entry(v.voting_power, coll, who, (power_of(v, coll, who) + nft.price) as u64),
        events: v.events.push(Event::NftBought { collection_index: coll, item_index: item, buyer: who, price: nft.price }),
        listed: v.listed.insert(coll, v.listed[coll].insert(t, v.listed[coll][t].drop_first())),
        ..v
    }
}

/// The pallet once `who` bought up to `n` NFTs of type `t` of `coll`, one by one, stopping
/// when the project is funded, which launches it.
pub open spec fn buy_loop(v: ProjectsView, coll: CollectionId, t: u8, who: AccountId, n: nat) -> ProjectsView
    decreases n,
{
    if n == 0 {
        v
    } else {
        let w = buy_step(v, coll, t, who);
        if w.projects[coll].project_balance >= w.projects[coll].project_price {
            Pallet::launched(w, coll)
        } else {
            buy_loop(w, coll, t, who, (n - 1) as nat)
        }
    }
}

/// The payment of an NFT of `price` xUSD from `who` to the pallet's account `pallet`, once
/// the runtime accepted it.
pub open spec fn payment(who: AccountId, pallet: AccountId, price: Balance) -> ProjectsCall {
    ProjectsCall::TransferAsset { asset: XUSD_ASSET_ID, from: who, to: pallet, amount: price, result: Ok(()) }
}

/// The delivery of `item` of `coll` to `who`, once the runtime accepted it.
pub open spec fn delivery(coll: CollectionId, item: ItemId, who: AccountId) -> ProjectsCall {
    ProjectsCall::TransferNft { collection: coll, item, to: who, result: Ok(()) }
}

/// The calls made when `who` buys up to `n` NFTs of type `t` of `coll`, as `buy_loop` buys
/// them: for each NFT, its payment, then its delivery to the buyer; when the project gets
/// funded, the burns of its unsold NFTs.
pub open spec fn buy_payments(v: ProjectsView, coll: CollectionId, t: u8, who: AccountId, n: nat) -> Seq<ProjectsCall>
    decreases n,
{
    if n == 0 {
        Seq::empty()
    } else {
        let w = buy_step(v, coll, t, who);
        let item = v.listed[coll][t][0];
        let first = seq![payment(who, v.config.pallet_account, v.nft_details[coll][item].price), delivery(coll, item, who)];
        if w.projects[coll].project_balance >= w.projects[coll].project_price {
            first + launch_burns(w, coll)
        } else {
            first + buy_payments(w, coll, t, who, (n - 1) as nat)
        }
    }
}

/// The payments made so far, `seg`, are the first ones asked for.
proof fn lemma_buy_calls(pays: Seq<ProjectsCall>, seg: Seq<ProjectsCall>, rest: Seq<ProjectsCall>)
    requires
        pays == seg + rest,
        forall|i: int| 0 <= i < seg.len() ==> answer(#[trigger] seg[i]) is Some,
    ensures
        seg.len() <= pays.len(),
        forall|i: int| 0 <= i < seg.len() ==> same_call(#[trigger] seg[i], pays[i]),
        forall|i: int| 0 <= i < seg.len() ==> #[trigger] seg[i] == pays[i],
{
    assert forall|i: int| 0 <= i < seg.len() implies same_call(#[trigger] seg[i], pays[i]) by {
        assert(pays[i] == seg[i]);
    }
}

/// The payments made so far, `seg`, are the first ones asked for, and the one after them,
/// `c`, was refused.
proof fn lemma_buy_refused(pays: Seq<ProjectsCall>, seg: Seq<ProjectsCall>, rest: Seq<ProjectsCall>, c: ProjectsCall)
    requires
        pays == seg + rest,
        rest.len() > 0,
        same_call(c, rest[0]),
        forall|i: int| 0 <= i < seg.len() ==> answer(#[trigger] seg[i]) is Some,
    ensures
        seg.push(c).len() <= pays.len(),
        forall|i: int| 0 <= i < seg.push(c).len() ==> same_call(#[trigger] seg.push(c)[i], pays[i]),
        forall|i: int| 0 <= i < seg.push(c).len() - 1 ==> #[trigger] seg.push(c)[i] == pays[i],
{
    lemma_buy_calls(pays, seg, rest);
    assert forall|i: int| 0 <= i < seg.push(c).len() implies same_call(#[trigger] seg.push(c)[i], pays[i]) by {
        if i < seg.len() {
            assert(seg.push(c)[i] == seg[i]);
        } else {
            assert(pays[i] == rest[0]);
        }
    }
    assert forall|i: int| 0 <= i < seg.push(c).len() - 1 implies #[trigger] seg.push(c)[i] == pays[i] by {
        assert(seg.push(c)[i] == seg[i]);
    }
}

/// Whether buying up to `n` NFTs of type `t` of `coll` stays within the arithmetic of the
/// runtime: each purchase that gets that far adds its price to the project's balance and to
/// the buyer's voting power without overflow.
pub open spec fn buy_fits(v: ProjectsView, coll: CollectionId, t: u8, who: AccountId, n: nat) -> bool
    decreases n,
{
    if n == 0 {
        true
    } else {
        let found = listed_of(v, coll, t) is Some && v.listed[coll][t].len() > 0 && entry(v.nft_details, coll, v.listed[coll][t][0]) is Some;
        found ==> {
            let price = v.nft_details[coll][v.listed[coll][t][0]].price;
            &&& v.projects[coll].project_balance + price <= u128::MAX
            &&& price <= u64::MAX ==> power_of(v, coll, who) + price <= u64::MAX
            &&& price <= u64::MAX ==> {
                let w = buy_step(v, coll, t, who);
                w.projects[coll].project_balance < w.projects[coll].project_price ==> buy_fits(w, coll, t, who, (n - 1) as nat)
            }
        }
    }
}

/// The listed NFTs of type `t` of collection `k`, copied.
fn get_listed(m: &BTreeMap<CollectionId, BTreeMap<u8, Vec<ItemId>>>, k: CollectionId, t: u8) -> (r: Option<Vec<ItemId>>)
    ensures
        match r {
            Some(v) => listed_view(m@).dom().contains(k) && listed_view(m@)[k].dom().contains(t) && v@ == listed_view(m@)[k][t],
            None => !(listed_view(m@).dom().contains(k) && listed_view(m@)[k].dom().contains(t)),
        },
{
    match m.get(&k) {
        Some(inner) => match inner.get(&t) {
            Some(v) => {
                let c = v.clone();
                assert(c@ =~= v@);
                Some(c)
            },
            None => None,
        },
        None => None,
    }
}

/// Sets the listed NFTs of type `t` of collection `k`.
fn set_listed(m: &mut BTreeMap<CollectionId, BTreeMap<u8, Vec<ItemId>>>, k: CollectionId, t: u8, v: Vec<ItemId>)
    ensures
        listed_view(final(m)@) == listed_view(old(m)@).insert(
            k,
            (if listed_view(old(m)@).dom().contains(k) { listed_view(old(m)@)[k] } else { Map::empty() }).insert(t, v@),
        ),
{
    let ghost m0 = listed_view(old(m)@);
    let mut inner = match m.remove(&k) {
        Some(i) => i,
        None => BTreeMap::new(),
    };
    inner.insert(t, v);
    m.insert(k, inner);
    assert(listed_view(m@)[k] =~= (if m0.dom().contains(k) { m0[k] } else { Map::empty() }).insert(t, v@));
    assert(listed_view(m@) =~= m0.insert(k, (if m0.dom().contains(k) { m0[k] } else { Map::empty() }).insert(t, v@)));
}

impl Pallet {
    /// Why buying `amount` NFTs of type `t` of `coll` would be refused before any purchase.
    pub open spec fn buy_error(v: ProjectsView, origin: Origin, whitelist: Set<AccountId>, coll: CollectionId, t: u8, amount: u64) -> Option<DispatchError> {
        if signer_error(origin, whitelist) is Some {
            signer_error(origin, whitelist)
        } else if !v.projects.dom().contains(coll) {
            Some(DispatchError::Module(Error::InvalidIndex))
        } else if listed_of(v, coll, t) is None {
            Some(DispatchError::Module(Error::NftTypeNotFound))
        } else if v.listed[coll][t].len() < amount {
            Some(DispatchError::Module(Error::NotEnoughNftsAvailable))
        } else {
            None
        }
    }

    /// Buys `amount` listed NFTs of type `nft_type` of a project, one after the other, each
    /// paid in xUSD to the pallet's account; every xUSD paid is a vote of the buyer on the
    /// project's milestones. Buying stops once the project is funded, which launches it.
    pub fn buy_nft<R: ProjectsRuntime>(
        &mut self,
        origin: Origin,
        collection_id: CollectionId,
        nft_type: u8,
        amount: u64,
        whitelist: &BTreeSet<AccountId>,
        runtime: &mut R,
    ) -> (res: Result<(), DispatchError>)
        requires
            Self::buy_error(old(self)@, origin, whitelist@, collection_id, nft_type, amount) is None ==> buy_fits(
                old(self)@,
                collection_id,
                nft_type,
                origin->Signed_0,
                amount as nat,
            ),
        ensures
            res is Err ==> final(self)@ == old(self)@,
            Self::buy_error(old(self)@, origin, whitelist@, collection_id, nft_type, amount) is Some ==> res == Err::<(), DispatchError>(
                Self::buy_error(old(self)@, origin, whitelist@, collection_id, nft_type, amount)->Some_0,
            ),
            Self::buy_error(old(self)@, origin, whitelist@, collection_id, nft_type, amount) is None ==> {
                let who = origin->Signed_0;
                let pays = buy_payments(old(self)@, collection_id, nft_type, who, amount as nat);
                let seg = calls_since(old(self).calls@, final(self).calls@);
                &&& final(self).calls@.len() >= old(self).calls@.len()
                &&& final(self).calls@.subrange(0, old(self).calls@.len() as int) == old(self).calls@
                &&& seg.len() <= pays.len()
                &&& forall|i: int| 0 <= i < seg.len() ==> same_call(#[trigger] seg[i], pays[i])
                &&& forall|i: int| 0 <= i < seg.len() - 1 ==> #[trigger] seg[i] == pays[i]
                &&& if seg.len() > 0 && refused(seg.last()) {
                    res == (if seg.last() is TransferAsset {
                        Err::<(), DispatchError>(DispatchError::Module(Error::NotEnoughFunds))
                    } else {
                        answer_of(seg.last())
                    })
                } else {
                    res == buy_outcome(old(self)@, collection_id, nft_type, who, amount as nat)
                }
                &&& res is Ok ==> seg == pays && final(self)@ == buy_loop(old(self)@, collection_id, nft_type, who, amount as nat)
            },
            Self::buy_error(old(self)@, origin, whitelist@, collection_id, nft_type, amount) is Some ==> final(self).calls@ == old(self).calls@,
    {
        let saved = self.snapshot();
        let res = self.buy_nft_inner(origin, collection_id, nft_type, amount, whitelist, runtime);
        if res.is_err() {
            let calls = Ghost(self.calls@);
            *self = saved;
            self.calls = calls;
        }
        res
    }

    #[verifier::rlimit(60)]
    fn buy_nft_inner<R: ProjectsRuntime>(
        &mut self,
        origin: Origin,
        collection_id: CollectionId,
        nft_type: u8,
        amount: u64,
        whitelist: &BTreeSet<AccountId>,
        runtime: &mut R,
    ) -> (res: Result<(), DispatchError>)
        requires
            Self::buy_error(old(self)@, origin, whitelist@, collection_id, nft_type, amount) is None ==> buy_fits(
                old(self)@,
                collection_id,
                nft_type,
                origin->Signed_0,
                amount as nat,
            ),
        ensures
            Self::buy_error(old(self)@, origin, whitelist@, collection_id, nft_type, amount) is Some ==> res == Err::<(), DispatchError>(
                Self::buy_error(old(self)@, origin, whitelist@, collection_id, nft_type, amount)->Some_0,
            ),
            Self::buy_error(old(self)@, origin, whitelist@, collection_id, nft_type, amount) is None ==> {
                let who = origin->Signed_0;
                let pays = buy_payments(old(self)@, collection_id, nft_type, who, amount as nat);
                let seg = calls_since(old(self).calls@, final(self).calls@);
                &&& final(self).calls@.len() >= old(self).calls@.len()
                &&& final(self).calls@.subrange(0, old(self).calls@.len() as int) == old(self).calls@
                &&& seg.len() <= pays.len()
                &&& forall|i: int| 0 <= i < seg.len() ==> same_call(#[trigger] seg[i], pays[i])
                &&& forall|i: int| 0 <= i < seg.len() - 1 ==> #[trigger] seg[i] == pays[i]
                &&& if seg.len() > 0 && refused(seg.last()) {
                    res == (if seg.last() is TransferAsset {
                        Err::<(), DispatchError>(DispatchError::Module(Error::NotEnoughFunds))
                    } else {
                        answer_of(seg.last())
                    })
                } else {
                    res == buy_outcome(old(self)@, collection_id, nft_type, who, amount as nat)
                }
                &&& res is Ok ==> seg == pays && final(self)@ == buy_loop(old(self)@, collection_id, nft_type, who, amount as nat)
            },
            Self::buy_error(old(self)@, origin, whitelist@, collection_id, nft_type, amount) is Some ==> final(self).calls@ == old(self).calls@,
    {
        let ghost v0 = self@;
        let who = match whitelisted_signer(origin, whitelist) {
            Ok(a) => a,
            Err(e) => {
                return Err(e);
            },
        };
        let mut project = match self.ongoing_projects.get(&collection_id) {
            Some(p) => *p,
            None => {
                return Err(DispatchError::Module(Error::InvalidIndex));
            },
        };
        let available = match get_listed(&self.listed_nft_types, collection_id, nft_type) {
            Some(v) => v.len(),
            None => {
                return Err(DispatchError::Module(Error::NftTypeNotFound));
            },
        };
        if (available as u64) < amount {
            return Err(DispatchError::Module(Error::NotEnoughNftsAvailable));
        }
        proof {
            assert(self.calls@.subrange(0, old(self).calls@.len() as int) =~= old(self).calls@);
            assert(calls_since(old(self).calls@, self.calls@) =~= Seq::<ProjectsCall>::empty());
            assert(Seq::<ProjectsCall>::empty() + buy_payments(self@, collection_id, nft_type, who, amount as nat)
                =~= buy_payments(self@, collection_id, nft_type, who, amount as nat));
        }
        if amount == 0 {
            return Ok(());
        }
        let pallet = self.config.pallet_account;
        let mut x: u64 = 0;
        while x < amount
            invariant_except_break
                x <= amount,
                amount > 0,
                Self::buy_error(old(self)@, origin, whitelist@, collection_id, nft_type, amount) is None,
                v0 == old(self)@,
                self@.projects.dom().contains(collection_id),
                project == self@.projects[collection_id],
                listed_of(self@, collection_id, nft_type) is Some,
                self@.listed[collection_id][nft_type].len() >= amount - x,
                buy_fits(self@, collection_id, nft_type, who, (amount - x) as nat),
                self@.projects[collection_id].duration == v0.projects[collection_id].duration,
                buy_loop(v0, collection_id, nft_type, who, amount as nat) == buy_loop(self@, collection_id, nft_type, who, (amount - x) as nat),
                buy_fault(v0, collection_id, nft_type, who, amount as nat) == buy_fault(self@, collection_id, nft_type, who, (amount - x) as nat),
                self@.config == v0.config,
                pallet == self@.config.pallet_account,
                who == origin->Signed_0,
                self.calls@.len() >= old(self).calls@.len(),
                self.calls@.subrange(0, old(self).calls@.len() as int) == old(self).calls@,
                buy_payments(v0, collection_id, nft_type, who, amount as nat)
                    == calls_since(old(self).calls@, self.calls@) + buy_payments(self@, collection_id, nft_type, who, (amount - x) as nat),
                forall|i: int| 0 <= i < calls_since(old(self).calls@, self.calls@).len()
                    ==> answer(#[trigger] calls_since(old(self).calls@, self.calls@)[i]) is Some
                        && !refused(calls_since(old(self).calls@, self.calls@)[i]),
            ensures
                self@ == buy_loop(v0, collection_id, nft_type, who, amount as nat),
                buy_fault(v0, collection_id, nft_type, who, amount as nat) is None,
                self.calls@.len() >= old(self).calls@.len(),
                self.calls@.subrange(0, old(self).calls@.len() as int) == old(self).calls@,
                calls_since(old(self).calls@, self.calls@) == buy_payments(v0, collection_id, nft_type, who, amount as nat),
                forall|i: int| 0 <= i < calls_since(old(self).calls@, self.calls@).len()
                    ==> answer(#[trigger] calls_since(old(self).calls@, self.calls@)[i]) is Some
                        && !refused(calls_since(old(self).calls@, self.calls@)[i]),
            decreases amount - x,
        {
            let ghost prev = self@;
            let ghost pays = buy_payments(v0, collection_id, nft_type, who, amount as nat);
            let ghost rest = buy_payments(prev, collection_id, nft_type, who, (amount - x) as nat);
            proof {
                let seg = calls_since(old(self).calls@, self.calls@);
                lemma_buy_calls(pays, seg, rest);
                if seg.len() > 0 {
                    assert(!refused(seg[seg.len() - 1]));
                    assert(seg.last() == seg[seg.len() - 1]);
                }
            }
            let mut list_nft_types = match get_listed(&self.listed_nft_types, collection_id, nft_type) {
                Some(v) => v,
                None => {
                    return Err(DispatchError::Module(Error::NftTypeNotFound));
                },
            };
            let item_id = list_nft_types[0];
            let nft = match take_entry(&mut self.ongoing_nft_details, collection_id, item_id) {
                Some(n) => n,
                None => {
                    proof {
                        let seg = calls_since(old(self).calls@, self.calls@);
                        if seg.len() > 0 {
                            assert(!refused(seg.last()));
                        }
                        assert(item_id == prev.listed[collection_id][nft_type][0]);
                    }
                    return Err(DispatchError::Module(Error::NftNotFound));
                },
            };
            let ghost before_pay = self.calls@;
            proof { assert(rest.len() > 0); }
            let paid: Result<(), DispatchError> = match runtime.transfer_asset(XUSD_ASSET_ID, who, pallet, nft.price) {
                Ok(()) => Ok(()),
                Err(e) => Err(e),
            };
            self.calls = Ghost(self.calls@.push(ProjectsCall::TransferAsset { asset: XUSD_ASSET_ID, from: who, to: pallet, amount: nft.price, result: paid }));
            proof {
                let rest = buy_payments(prev, collection_id, nft_type, who, (amount - x) as nat);
                assert(rest[0] == payment(who, pallet, nft.price));
                assert(self.calls@.subrange(0, old(self).calls@.len() as int) =~= old(self).calls@);
                assert(calls_since(old(self).calls@, self.calls@) =~= calls_since(old(self).calls@, before_pay).push(
                    ProjectsCall::TransferAsset { asset: XUSD_ASSET_ID, from: who, to: pallet, amount: nft.price, result: paid },
                ));
                let seg0 = calls_since(old(self).calls@, before_pay);
                let c = ProjectsCall::TransferAsset { asset: XUSD_ASSET_ID, from: who, to: pallet, amount: nft.price, result: paid };
                if paid is Err {
                    lemma_buy_refused(pays, seg0, rest, c);
                } else {
                    assert(c == rest[0]);
                    assert(seg0 == calls_since(old(self).calls@, self.calls@).drop_last());
                    assert(pays == seg0 + rest);
                    assert(pays =~= seg0.push(c) + rest.skip(1));
                    lemma_buy_calls(pays, seg0.push(c), rest.skip(1));
                }
            }
            if paid.is_err() {
                return Err(DispatchError::Module(Error::NotEnoughFunds));
            }
            let ghost before_delivery = self.calls@;
            let delivered: Result<(), DispatchError> = match runtime.transfer_nft(collection_id, item_id, who) {
                Ok(()) => Ok(()),
                Err(e) => Err(e),
            };
            self.calls = Ghost(self.calls@.push(ProjectsCall::TransferNft { collection: collection_id, item: item_id, to: who, result: delivered }));
            proof {
                let c = ProjectsCall::TransferAsset { asset: XUSD_ASSET_ID, from: who, to: pallet, amount: nft.price, result: paid };
                let seg1 = calls_since(old(self).calls@, before_pay).push(c);
                let d = ProjectsCall::TransferNft { collection: collection_id, item: item_id, to: who, result: delivered };
                assert(self.calls@.subrange(0, old(self).calls@.len() as int) =~= old(self).calls@);
                assert(calls_since(old(self).calls@, before_delivery) =~= seg1);
                assert(calls_since(old(self).calls@, self.calls@) =~= seg1.push(d));
                assert(rest.skip(1)[0] == delivery(collection_id, item_id, who));
                assert(pays =~= seg1 + rest.skip(1));
                if delivered is Err {
                    lemma_buy_refused(pays, seg1, rest.skip(1), d);
                } else {
                    assert(d == rest.skip(1)[0]);
                    assert(pays =~= seg1.push(d) + rest.skip(2));
                    lemma_buy_calls(pays, seg1.push(d), rest.skip(2));
                }
            }
            match delivered {
                Ok(()) => {},
                Err(e) => {
                    return Err(e);
                },
            }
            project.project_balance = project.project_balance + nft.price;
            add_member(&mut self.nft_holder, collection_id, who);
            let current_voting_power = match get_entry(&self.voting_power, collection_id, who) {
                Some(p) => p,
                None => 0,
            };
            proof {
                assert(item_id == prev.listed[collection_id][nft_type][0]);
                assert(nft == prev.nft_details[collection_id][item_id]);
                let seg = calls_since(old(self).calls@, self.calls@);
                assert(!refused(seg.last()));
            }
            let price = match balance_to_u64(nft.price) {
                Ok(p) => p,
                Err(e) => {
                    return Err(DispatchError::Module(e));
                },
            };
            set_entry(&mut self.voting_power, collection_id, who, current_voting_power + price);
            self.events.push(Event::NftBought { collection_index: collection_id, item_index: item_id, buyer: who, price: nft.price });
            list_nft_types.remove(0);
            set_listed(&mut self.listed_nft_types, collection_id, nft_type, list_nft_types);
            self.ongoing_projects.insert(collection_id, project);
            proof {
                assert(list_nft_types@ =~= prev.listed[collection_id][nft_type].drop_first());
                assert(self@ =~= buy_step(prev, collection_id, nft_type, who));
            }
            if project.project_balance >= project.project_price {
                let ghost w = self@;
                let ghost before_launch = self.calls@;
                proof {
                    let seg = calls_since(old(self).calls@, before_launch);
                    assert(rest.skip(2) =~= launch_burns(w, collection_id));
                    assert(pays =~= seg + launch_burns(w, collection_id));
                    lemma_burns_ok(w, collection_id, w.projects[collection_id].nft_types as int);
                }
                let launch = self.launch_project(collection_id, runtime);
                proof {
                    let seg = calls_since(old(self).calls@, before_launch);
                    let lseg = calls_since(before_launch, self.calls@);
                    assert(self.calls@.subrange(0, old(self).calls@.len() as int) =~= old(self).calls@);
                    assert(calls_since(old(self).calls@, self.calls@) =~= seg + lseg);
                    lemma_calls_concat(pays, seg, launch_burns(w, collection_id), lseg);
                    if lseg.len() > 0 && refused(lseg.last()) {
                        let plan = launch_burns(w, collection_id);
                        assert(plan[lseg.len() - 1] is Burn);
                        assert(same_call(lseg[lseg.len() - 1], plan[lseg.len() - 1]));
                        assert(lseg.last() is Burn);
                    }
                }
                match launch {
                    Ok(()) => {},
                    Err(e) => {
                        return Err(e);
                    },
                }
                proof {
                    let lseg = calls_since(before_launch, self.calls@);
                    assert(lseg == launch_burns(w, collection_id));
                    assert forall|i: int| 0 <= i < calls_since(old(self).calls@, self.calls@).len() implies
                        answer(#[trigger] calls_since(old(self).calls@, self.calls@)[i]) is Some
                            && !refused(calls_since(old(self).calls@, self.calls@)[i]) by {
                        assert(calls_since(old(self).calls@, self.calls@)[i] == pays[i]);
                        if i >= calls_since(old(self).calls@, before_launch).len() {
                            let j = i - calls_since(old(self).calls@, before_launch).len();
                            assert(pays[i] == launch_burns(w, collection_id)[j]);
                        } else {
                            lemma_buy_calls(pays, calls_since(old(self).calls@, before_launch), launch_burns(w, collection_id));
                        }
                    }
                }
                break;
            }
            x = x + 1;
        }
        proof {
            let seg = calls_since(old(self).calls@, self.calls@);
            lemma_buy_calls(seg, seg, Seq::empty());
            assert(seg + Seq::<ProjectsCall>::empty() =~= seg);
            if seg.len() > 0 {
                assert(seg.last() == seg[seg.len() - 1]);
            }
        }
        Ok(())
    }
}

/// The calls listing `len` calls of the NFTs of one type makes, from the item `start` on: each
/// item is minted for the pallet, then given the metadata `data` of its type.
pub open spec fn type_calls(c: CollectionId, who: AccountId, pallet: AccountId, start: int, len: int, data: Vec<u8>) -> Seq<ProjectsCall> {
    Seq::new(len as nat, |j: int| if j % 2 == 0 {
        ProjectsCall::Mint { collection: c, item: (start + j / 2) as ItemId, owner: pallet, result: Ok(()) }
    } else {
        ProjectsCall::SetMetadata { who, collection: c, item: (start + j / 2) as ItemId, data, result: Ok(()) }
    })
}

/// The calls listing the NFTs of the first `k` types makes, type after type.
pub open spec fn items_calls(
    c: CollectionId,
    who: AccountId,
    pallet: AccountId,
    types: Seq<NftDonationTypes>,
    metadata: Seq<Vec<u8>>,
    k: int,
) -> Seq<ProjectsCall>
    decreases k,
{
    if k <= 0 {
        Seq::empty()
    } else {
        items_calls(c, who, pallet, types, metadata, k - 1)
            + type_calls(c, who, pallet, total_amount(types.take(k - 1)), 2 * types[k - 1].amount, metadata[k - 1])
    }
}

/// The calls listing a project in collection `c` makes once the collection is created: the
/// collection's metadata `data`, the NFTs of each type (minted, then given the metadata of
/// their type), then the collection's team.
pub open spec fn list_plan(
    c: CollectionId,
    who: AccountId,
    pallet: AccountId,
    data: Vec<u8>,
    types: Seq<NftDonationTypes>,
    metadata: Seq<Vec<u8>>,
) -> Seq<ProjectsCall> {
    seq![ProjectsCall::SetCollectionMetadata { who, collection: c, data, result: Ok(()) }]
        + items_calls(c, who, pallet, types, metadata, types.len() as int)
        + seq![ProjectsCall::SetTeam { who, collection: c, result: Ok(()) }]
}

/// The calls of the first `k` types come first among those of the first `n`, and every call
/// of the plan is accepted.
proof fn lemma_items_prefix(
    c: CollectionId,
    who: AccountId,
    pallet: AccountId,
    types: Seq<NftDonationTypes>,
    metadata: Seq<Vec<u8>>,
    k: int,
    n: int,
)
    requires
        0 <= k <= n,
    ensures
        items_calls(c, who, pallet, types, metadata, k).len() <= items_calls(c, who, pallet, types, metadata, n).len(),
        forall|i: int| 0 <= i < items_calls(c, who, pallet, types, metadata, k).len()
            ==> #[trigger] items_calls(c, who, pallet, types, metadata, n)[i] == items_calls(c, who, pallet, types, metadata, k)[i],
        forall|i: int| 0 <= i < items_calls(c, who, pallet, types, metadata, n).len()
            ==> answer(#[trigger] items_calls(c, who, pallet, types, metadata, n)[i]) == Some(Ok::<(), DispatchError>(())),
    decreases n,
{
    if n > 0 {
        let prev = items_calls(c, who, pallet, types, metadata, n - 1);
        let all = items_calls(c, who, pallet, types, metadata, n);
        if k < n {
            lemma_items_prefix(c, who, pallet, types, metadata, k, n - 1);
        } else {
            lemma_items_prefix(c, who, pallet, types, metadata, n - 1, n - 1);
        }
        assert forall|i: int| 0 <= i < prev.len() implies #[trigger] all[i] == prev[i] by {}
        assert forall|i: int| 0 <= i < all.len() implies answer(#[trigger] all[i]) == Some(Ok::<(), DispatchError>(())) by {
            if i < prev.len() {
                assert(all[i] == prev[i]);
            }
        }
    }
}

/// The plan of a listing, seen at the `m`-th call of the NFTs of type `t`: the calls made so
/// far come first, then the call that follows.
proof fn lemma_list_step(
    c: CollectionId,
    who: AccountId,
    pallet: AccountId,
    data: Vec<u8>,
    types: Seq<NftDonationTypes>,
    metadata: Seq<Vec<u8>>,
    t: int,
    m: int,
)
    requires
        0 <= t < types.len(),
        0 <= m <= 2 * types[t].amount,
    ensures
        ({
            let start = total_amount(types.take(t));
            let pre = seq![ProjectsCall::SetCollectionMetadata { who, collection: c, data, result: Ok(()) }]
                + items_calls(c, who, pallet, types, metadata, t) + type_calls(c, who, pallet, start, m, metadata[t]);
            let plan = list_plan(c, who, pallet, data, types, metadata);
            &&& pre.len() < plan.len()
            &&& forall|j: int| 0 <= j < pre.len() ==> #[trigger] plan[j] == pre[j]
            &&& forall|j: int| 0 <= j < plan.len() ==> answer(#[trigger] plan[j]) == Some(Ok::<(), DispatchError>(()))
            &&& m < 2 * types[t].amount ==> plan[pre.len() as int] == type_calls(c, who, pallet, start, m + 1, metadata[t])[m]
            &&& m == 2 * types[t].amount ==> pre == seq![ProjectsCall::SetCollectionMetadata { who, collection: c, data, result: Ok(()) }]
                + items_calls(c, who, pallet, types, metadata, t + 1)
        }),
{
    let n = types.len() as int;
    let start = total_amount(types.take(t));
    let head = seq![ProjectsCall::SetCollectionMetadata { who, collection: c, data, result: Ok(()) }];
    let full_t = type_calls(c, who, pallet, start, 2 * types[t].amount, metadata[t]);
    let part = type_calls(c, who, pallet, start, m, metadata[t]);
    let it = items_calls(c, who, pallet, types, metadata, t);
    let it1 = items_calls(c, who, pallet, types, metadata, t + 1);
    let all = items_calls(c, who, pallet, types, metadata, n);
    let plan = list_plan(c, who, pallet, data, types, metadata);
    let pre = head + it + part;
    lemma_items_prefix(c, who, pallet, types, metadata, t + 1, n);
    assert(it1 == it + full_t);
    assert forall|j: int| 0 <= j < pre.len() implies #[trigger] plan[j] == pre[j] by {
        if j >= 1 {
            assert(plan[j] == all[j - 1]);
            assert(all[j - 1] == it1[j - 1]);
            if j - 1 >= it.len() {
                assert(part[j - 1 - it.len()] == full_t[j - 1 - it.len()]);
            }
        }
    }
    assert forall|j: int| 0 <= j < plan.len() implies answer(#[trigger] plan[j]) == Some(Ok::<(), DispatchError>(())) by {
        if 1 <= j < 1 + all.len() {
            assert(plan[j] == all[j - 1]);
        }
    }
    if m < 2 * types[t].amount {
        assert(plan[pre.len() as int] == all[pre.len() - 1]);
        assert(all[pre.len() - 1] == it1[pre.len() - 1]);
        assert(it1[pre.len() - 1] == full_t[m]);
    }
    if m == 2 * types[t].amount {
        assert(part =~= full_t);
        assert(pre =~= head + it1);
    }
}

/// What all the NFTs of a project are worth together.
pub open spec fn total_value(types: Seq<NftDonationTypes>) -> int
    decreases types.len(),
{
    if types.len() == 0 { 0 } else { total_value(types.drop_last()) + types.last().price * types.last().amount }
}

/// How many NFTs a project offers.
pub open spec fn total_amount(types: Seq<NftDonationTypes>) -> int
    decreases types.len(),
{
    if types.len() == 0 { 0 } else { total_amount(types.drop_last()) + types.last().amount }
}

/// The totals of a prefix of the NFT types do not exceed those of all of them.
proof fn lemma_totals_prefix(types: Seq<NftDonationTypes>, k: int)
    requires
        0 <= k <= types.len(),
    ensures
        0 <= total_value(types.take(k)) <= total_value(types),
        0 <= total_amount(types.take(k)) <= total_amount(types),
    decreases types.len(),
{
    if types.len() > 0 {
        if k == types.len() {
            assert(types.take(k) =~= types);
            lemma_totals_prefix(types.drop_last(), k - 1);
            assert(types.drop_last().take(k - 1) =~= types.drop_last());
        } else {
            lemma_totals_prefix(types.drop_last(), k);
            assert(types.drop_last().take(k) =~= types.take(k));
        }
        assert(types.last().price * types.last().amount >= 0) by (nonlinear_arith);
    } else {
        assert(types.take(k) =~= types);
    }
}

/// `m` with the NFTs `start .. start + count` of `coll`, priced `price`, owned by `who`.
pub open spec fn add_range(m: Map<ItemId, NftDetails>, who: AccountId, coll: CollectionId, price: Balance, start: int, count: int) -> Map<ItemId, NftDetails> {
    Map::new(
        |k: ItemId| m.dom().contains(k) || (start <= k < start + count),
        |k: ItemId| if start <= k < start + count { NftDetails { project_owner: who, price, collection_id: coll, item_id: k } } else { m[k] },
    )
}

/// `m` with the NFTs minted for all the types of a project, numbered from zero type after
/// type.
pub open spec fn minted(m: Map<ItemId, NftDetails>, who: AccountId, coll: CollectionId, types: Seq<NftDonationTypes>) -> Map<ItemId, NftDetails>
    decreases types.len(),
{
    if types.len() == 0 {
        m
    } else {
        add_range(minted(m, who, coll, types.drop_last()), who, coll, types.last().price, total_amount(types.drop_last()), types.last().amount as int)
    }
}

/// The NFTs listed for a type whose NFTs are numbered from `start`: as many as the type has,
/// at most `max`.
pub open spec fn listing_of(start: int, amount: u32, max: u32) -> Seq<ItemId> {
    Seq::new((if amount <= max { amount } else { max }) as nat, |j: int| (start + j) as ItemId)
}

/// `m` with the listings of all the types of a project, by type number from one.
pub open spec fn listings(m: Map<u8, Seq<ItemId>>, types: Seq<NftDonationTypes>, max: u32) -> Map<u8, Seq<ItemId>>
    decreases types.len(),
{
    if types.len() == 0 {
        m
    } else {
        listings(m, types.drop_last(), max).insert(types.len() as u8, listing_of(total_amount(types.drop_last()), types.last().amount, max))
    }
}

/// No NFTs minted when the types offer none.
proof fn lemma_minted_none(m: Map<ItemId, NftDetails>, who: AccountId, coll: CollectionId, types: Seq<NftDonationTypes>)
    requires
        total_amount(types) == 0,
    ensures
        minted(m, who, coll, types) == m,
    decreases types.len(),
{
    if types.len() > 0 {
        lemma_totals_prefix(types, types.len() - 1);
        assert(types.take(types.len() - 1) =~= types.drop_last());
        lemma_minted_none(m, who, coll, types.drop_last());
        assert(add_range(m, who, coll, types.last().price, total_amount(types.drop_last()), 0) =~= m);
    }
}

impl Pallet {
    /// Why listing a project would be refused before any NFT is created.
    pub open spec fn list_error(
        origin: Origin,
        whitelist: Set<AccountId>,
        types: Seq<NftDonationTypes>,
        metadata_len: nat,
        duration: u32,
        price: Balance,
    ) -> Option<DispatchError> {
        if signer_error(origin, whitelist) is Some {
            signer_error(origin, whitelist)
        } else if metadata_len != types.len() {
            Some(DispatchError::Module(Error::WrongAmountOfMetadata))
        } else if price > total_value(types) {
            Some(DispatchError::Module(Error::PriceCannotBeReached))
        } else if duration == 0 {
            Some(DispatchError::Module(Error::DurationMustBeHigherThanZero))
        } else {
            None
        }
    }

    /// The pallet once `who` listed a project as collection `coll`.
    pub open spec fn listed_project(
        v: ProjectsView,
        who: AccountId,
        coll: CollectionId,
        types: Seq<NftDonationTypes>,
        duration: u32,
        price: Balance,
    ) -> ProjectsView {
        let milestones: u32 = if duration <= 12 { duration } else { 12 };
        ProjectsView {
            projects: v.projects.insert(coll, ProjectDetails {
                project_owner: who,
                project_price: price,
                duration,
                milestones,
                remaining_milestones: milestones,
                project_balance: 0,
                project_bonding_balance: 0,
                launching_timestamp: 0,
                strikes: 0,
                nft_types: types.len() as u8,
                ongoing: false,
            }),
            nft_details: if total_amount(types) == 0 {
                v.nft_details
            } else {
                v.nft_details.insert(coll, minted(inner_or_empty(v.nft_details, coll), who, coll, types))
            },
            listed: if types.len() == 0 {
                v.listed
            } else {
                v.listed.insert(coll, listings(inner_or_empty(v.listed, coll), types, v.config.max_nft_in_collection))
            },
            events: v.events.push(Event::ProjectListed { collection_index: coll, seller: who }),
            ..v
        }
    }

    /// What listing returns given its calls to the runtime after the collection was created
    /// (`rest`, against the plan `plan`): a refused call fails it with the runtime's answer,
    /// and it succeeds once every call of the plan was accepted.
    pub open spec fn list_made(plan: Seq<ProjectsCall>, rest: Seq<ProjectsCall>, created: Result<(), DispatchError>, res: Result<(), DispatchError>) -> bool {
        &&& rest.len() <= plan.len()
        &&& forall|i: int| 0 <= i < rest.len() ==> same_call(#[trigger] rest[i], plan[i])
        &&& forall|i: int| 0 <= i < rest.len() - 1 ==> #[trigger] rest[i] == plan[i]
        &&& rest.len() > 0 && refused(rest.last()) ==> res == answer_of(rest.last())
        &&& created is Ok && !(rest.len() > 0 && refused(rest.last())) ==> res is Ok && rest == plan
    }

    /// Creates a new project and lists the NFTs for the project on the marketplace: a new NFT
    /// collection holds, for each NFT type in turn, as many NFTs as the type has, numbered
    /// from zero and minted for the pallet's account; each type lists at most
    /// `max_nft_in_collection` of them for sale. The project has one milestone per month of
    /// its duration, at most twelve.
    pub fn list_project<R: ProjectsRuntime>(
        &mut self,
        origin: Origin,
        nft_types: Vec<NftDonationTypes>,
        metadata: Vec<Vec<u8>>,
        duration: u32,
        price: Balance,
        data: Vec<u8>,
        whitelist: &BTreeSet<AccountId>,
        runtime: &mut R,
    ) -> (res: Result<(), DispatchError>)
        requires
            signer_error(origin, whitelist@) is None && metadata@.len() == nft_types@.len() ==> total_value(nft_types@) <= u128::MAX,
            Self::list_error(origin, whitelist@, nft_types@, metadata@.len(), duration, price) is None ==> {
                &&& nft_types@.len() < u8::MAX
                &&& total_amount(nft_types@) <= u32::MAX
            },
        ensures
            res is Err ==> final(self)@ == old(self)@,
            Self::list_error(origin, whitelist@, nft_types@, metadata@.len(), duration, price) is Some ==> res == Err::<(), DispatchError>(
                Self::list_error(origin, whitelist@, nft_types@, metadata@.len(), duration, price)->Some_0,
            ),
            Self::list_error(origin, whitelist@, nft_types@, metadata@.len(), duration, price) is Some ==> final(self).calls@ == old(self).calls@,
            Self::list_error(origin, whitelist@, nft_types@, metadata@.len(), duration, price) is None ==> {
                let seg = calls_since(old(self).calls@, final(self).calls@);
                let c = collection_read(seg[0]);
                &&& final(self).calls@.len() >= old(self).calls@.len() + 3
                &&& final(self).calls@.subrange(0, old(self).calls@.len() as int) == old(self).calls@
                &&& seg[0] is NextCollectionId
                &&& seg[1] == ProjectsCall::SetNextCollectionId { id: c.checked_add(1) }
                &&& seg[2] == ProjectsCall::CreateCollection { collection: c, owner: origin->Signed_0, result: seg[2]->CreateCollection_result }
                &&& seg[2]->CreateCollection_result is Err ==> res == seg[2]->CreateCollection_result && seg.len() == 3
                &&& Self::list_made(
                    list_plan(c, origin->Signed_0, old(self)@.config.pallet_account, data, nft_types@, metadata@),
                    seg.subrange(3, seg.len() as int),
                    seg[2]->CreateCollection_result,
                    res,
                )
                &&& res is Ok ==> final(self)@ == Self::listed_project(old(self)@, origin->Signed_0, c, nft_types@, duration, price)
            },
    {
        let saved = self.snapshot();
        let res = self.list_project_inner(origin, nft_types, metadata, duration, price, data, whitelist, runtime);
        if res.is_err() {
            let calls = Ghost(self.calls@);
            *self = saved;
            self.calls = calls;
        }
        res
    }

    fn list_project_inner<R: ProjectsRuntime>(
        &mut self,
        origin: Origin,
        nft_types: Vec<NftDonationTypes>,
        metadata: Vec<Vec<u8>>,
        duration: u32,
        price: Balance,
        data: Vec<u8>,
        whitelist: &BTreeSet<AccountId>,
        runtime: &mut R,
    ) -> (res: Result<(), DispatchError>)
        requires
            signer_error(origin, whitelist@) is None && metadata@.len() == nft_types@.len() ==> total_value(nft_types@) <= u128::MAX,
            Self::list_error(origin, whitelist@, nft_types@, metadata@.len(), duration, price) is None ==> {
                &&& nft_types@.len() < u8::MAX
                &&& total_amount(nft_types@) <= u32::MAX
            },
        ensures
            Self::list_error(origin, whitelist@, nft_types@, metadata@.len(), duration, price) is Some ==> res == Err::<(), DispatchError>(
                Self::list_error(origin, whitelist@, nft_types@, metadata@.len(), duration, price)->Some_0,
            ),
            Self::list_error(origin, whitelist@, nft_types@, metadata@.len(), duration, price) is Some ==> final(self).calls@ == old(self).calls@,
            Self::list_error(origin, whitelist@, nft_types@, metadata@.len(), duration, price) is None ==> {
                let seg = calls_since(old(self).calls@, final(self).calls@);
                let c = collection_read(seg[0]);
                &&& final(self).calls@.len() >= old(self).calls@.len() + 3
                &&& final(self).calls@.subrange(0, old(self).calls@.len() as int) == old(self).calls@
                &&& seg[0] is NextCollectionId
                &&& seg[1] == ProjectsCall::SetNextCollectionId { id: c.checked_add(1) }
                &&& seg[2] == ProjectsCall::CreateCollection { collection: c, owner: origin->Signed_0, result: seg[2]->CreateCollection_result }
                &&& seg[2]->CreateCollection_result is Err ==> res == seg[2]->CreateCollection_result && seg.len() == 3
                &&& Self::list_made(
                    list_plan(c, origin->Signed_0, old(self)@.config.pallet_account, data, nft_types@, metadata@),
                    seg.subrange(3, seg.len() as int),
                    seg[2]->CreateCollection_result,
                    res,
                )
                &&& res is Ok ==> final(self)@ == Self::listed_project(old(self)@, origin->Signed_0, c, nft_types@, duration, price)
            },
    {
        let ghost v0 = self@;
        let types = nft_types;
        let who = match whitelisted_signer(origin, whitelist) {
            Ok(a) => a,
            Err(e) => {
                return Err(e);
            },
        };
        if metadata.len() != types.len() {
            return Err(DispatchError::Module(Error::WrongAmountOfMetadata));
        }
        let mut total: u128 = 0;
        let mut i: usize = 0;
        while i < types.len()
            invariant
                0 <= i <= types.len(),
                total == total_value(types@.take(i as int)),
                total_value(types@) <= u128::MAX,
            decreases types.len() - i,
        {
            proof {
                assert(types@.take(i as int + 1).drop_last() =~= types@.take(i as int));
                lemma_totals_prefix(types@, i as int + 1);
                assert(types@[i as int].price * types@[i as int].amount >= 0) by (nonlinear_arith);
            }
            total = total + types[i].price * types[i].amount as u128;
            i = i + 1;
        }
        assert(types@.take(types.len() as int) =~= types@);
        if price > total {
            return Err(DispatchError::Module(Error::PriceCannotBeReached));
        }
        if duration == 0 {
            return Err(DispatchError::Module(Error::DurationMustBeHigherThanZero));
        }
        let next = runtime.next_collection_id();
        self.calls = Ghost(self.calls@.push(ProjectsCall::NextCollectionId { id: next }));
        let collection_id = match next {
            Some(c) => c,
            None => 0,
        };
        runtime.set_next_collection_id(collection_id.checked_add(1));
        self.calls = Ghost(self.calls@.push(ProjectsCall::SetNextCollectionId { id: collection_id.checked_add(1) }));
        let created: Result<(), DispatchError> = match runtime.create_collection(collection_id, who) {
            Ok(()) => Ok(()),
            Err(e) => Err(e),
        };
        self.calls = Ghost(self.calls@.push(ProjectsCall::CreateCollection { collection: collection_id, owner: who, result: created }));
        let ghost listed_calls = self.calls@;
        proof {
            assert(self.calls@.subrange(0, old(self).calls@.len() as int) =~= old(self).calls@);
            assert(calls_since(old(self).calls@, self.calls@) =~= seq![
                ProjectsCall::NextCollectionId { id: next },
                ProjectsCall::SetNextCollectionId { id: collection_id.checked_add(1) },
                ProjectsCall::CreateCollection { collection: collection_id, owner: who, result: created },
            ]);
        }
        match created {
            Ok(()) => {},
            Err(e) => {
                return Err(e);
            },
        }
        let pallet = self.config.pallet_account;
        let ghost plan = list_plan(collection_id, who, pallet, data, types@, metadata@);
        let collection_metadata: Result<(), DispatchError> = match runtime.set_collection_metadata(who, collection_id, &data) {
            Ok(()) => Ok(()),
            Err(e) => Err(e),
        };
        let ghost scm = ProjectsCall::SetCollectionMetadata { who, collection: collection_id, data, result: collection_metadata };
        self.calls = Ghost(self.calls@.push(scm));
        let ghost head = seq![ProjectsCall::SetCollectionMetadata { who, collection: collection_id, data, result: Ok(()) }];
        proof {
            assert(self.calls@.subrange(0, listed_calls.len() as int) =~= listed_calls);
            assert(self.calls@.subrange(0, old(self).calls@.len() as int) =~= old(self).calls@);
            let seg = calls_since(old(self).calls@, self.calls@);
            assert(seg.subrange(3, seg.len() as int) =~= seq![scm]);
            assert(calls_since(listed_calls, self.calls@) =~= seq![scm]);
            assert(seg[0] == calls_since(old(self).calls@, listed_calls)[0]);
            assert(seg[1] == calls_since(old(self).calls@, listed_calls)[1]);
            assert(seg[2] == calls_since(old(self).calls@, listed_calls)[2]);
            if types.len() > 0 {
                lemma_list_step(collection_id, who, pallet, data, types@, metadata@, 0, 0);
            }
            lemma_items_prefix(collection_id, who, pallet, types@, metadata@, 0, types@.len() as int);
            assert(plan[0] == head[0]);
            assert(plan =~= Seq::<ProjectsCall>::empty() + plan);
            if collection_metadata is Err {
                lemma_buy_refused(plan, Seq::empty(), plan, scm);
                assert(seq![scm] =~= Seq::<ProjectsCall>::empty().push(scm));
            } else {
                assert(scm == head[0]);
                assert(seq![scm] =~= head + items_calls(collection_id, who, pallet, types@, metadata@, 0));
            }
        }
        match collection_metadata {
            Ok(()) => {},
            Err(e) => {
                return Err(e);
            },
        }
        let milestone: u32 = if duration <= 12 { duration } else { 12 };
        let project = ProjectDetails {
            project_owner: who,
            project_price: price,
            duration,
            milestones: milestone,
            remaining_milestones: milestone,
            project_balance: 0,
            project_bonding_balance: 0,
            launching_timestamp: 0,
            strikes: 0,
            nft_types: types.len() as u8,
            ongoing: false,
        };
        self.ongoing_projects.insert(collection_id, project);
        let ghost base_details = inner_or_empty(v0.nft_details, collection_id);
        let ghost base_listed = inner_or_empty(v0.listed, collection_id);
        let max = self.config.max_nft_in_collection;
        let mut nft_id_index: u32 = 0;
        let mut number_nft_types: u8 = 1;
        let mut t: usize = 0;
        while t < types.len()
            invariant
                0 <= t <= types.len(),
                Self::list_error(origin, whitelist@, types@, metadata@.len(), duration, price) is None,
                types@ == nft_types@,
                types@.len() < u8::MAX,
                metadata@.len() == types@.len(),
                total_amount(types@) <= u32::MAX,
                number_nft_types == t + 1,
                nft_id_index == total_amount(types@.take(t as int)),
                max == v0.config.max_nft_in_collection,
                pallet == v0.config.pallet_account,
                pallet == old(self)@.config.pallet_account,
                self@ == (ProjectsView {
                    projects: self@.projects,
                    nft_details: if total_amount(types@.take(t as int)) == 0 {
                        v0.nft_details
                    } else {
                        v0.nft_details.insert(collection_id, minted(base_details, who, collection_id, types@.take(t as int)))
                    },
                    listed: if t == 0 {
                        v0.listed
                    } else {
                        v0.listed.insert(collection_id, listings(base_listed, types@.take(t as int), max))
                    },
                    ..v0
                }),
                self@.projects == v0.projects.insert(collection_id, project),
                base_details == inner_or_empty(v0.nft_details, collection_id),
                base_listed == inner_or_empty(v0.listed, collection_id),
                self.calls@.len() >= listed_calls.len(),
                self.calls@.subrange(0, listed_calls.len() as int) == listed_calls,
                calls_since(listed_calls, self.calls@) == head + items_calls(collection_id, who, pallet, types@, metadata@, t as int),
                head == seq![ProjectsCall::SetCollectionMetadata { who, collection: collection_id, data, result: Ok(()) }],
                plan == list_plan(collection_id, who, pallet, data, types@, metadata@),
                listed_calls.len() == old(self).calls@.len() + 3,
                listed_calls.subrange(0, old(self).calls@.len() as int) == old(self).calls@,
                calls_since(old(self).calls@, listed_calls) == seq![
                    ProjectsCall::NextCollectionId { id: next },
                    ProjectsCall::SetNextCollectionId { id: collection_id.checked_add(1) },
                    ProjectsCall::CreateCollection { collection: collection_id, owner: who, result: created },
                ],
                created is Ok,
                who == origin->Signed_0,
                collection_id == collection_read(ProjectsCall::NextCollectionId { id: next }),
            decreases types.len() - t,
        {
            let nft_type = types[t];
            proof {
                lemma_totals_prefix(types@, t as int + 1);
                assert(types@.take(t as int + 1).drop_last() =~= types@.take(t as int));
                assert(types@.take(t as int + 1).last() == nft_type);
            }
            let start = nft_id_index;
            let mut nft_type_vec: Vec<ItemId> = Vec::new();
            let mut y: u32 = 0;
            proof {
                let prev = minted(base_details, who, collection_id, types@.take(t as int));
                assert(add_range(prev, who, collection_id, nft_type.price, start as int, 0) =~= prev);
                if total_amount(types@.take(t as int)) == 0 {
                    lemma_minted_none(base_details, who, collection_id, types@.take(t as int));
                }
                assert(nft_type_vec@ =~= listing_of(start as int, 0, max));
                assert(head + items_calls(collection_id, who, pallet, types@, metadata@, t as int)
                    + type_calls(collection_id, who, pallet, start as int, 0, metadata@[t as int])
                    =~= head + items_calls(collection_id, who, pallet, types@, metadata@, t as int));
            }
            while y < nft_type.amount
                invariant
                    0 <= y <= nft_type.amount,
                    Self::list_error(origin, whitelist@, types@, metadata@.len(), duration, price) is None,
                    types@ == nft_types@,
                    nft_type == types@[t as int],
                    t < types.len(),
                    metadata@.len() == types@.len(),
                    start == total_amount(types@.take(t as int)),
                    start + nft_type.amount <= total_amount(types@.take(t as int + 1)),
                    total_amount(types@.take(t as int + 1)) <= u32::MAX,
                    nft_id_index == start + y,
                    nft_type_vec@ == listing_of(start as int, y, max),
                    self@ == (ProjectsView {
                        projects: self@.projects,
                        nft_details: if start + y == 0 {
                            v0.nft_details
                        } else {
                            v0.nft_details.insert(
                                collection_id,
                                add_range(minted(base_details, who, collection_id, types@.take(t as int)), who, collection_id, nft_type.price, start as int, y as int),
                            )
                        },
                        listed: if t == 0 {
                            v0.listed
                        } else {
                            v0.listed.insert(collection_id, listings(base_listed, types@.take(t as int), max))
                        },
                        ..v0
                    }),
                    self@.projects == v0.projects.insert(collection_id, project),
                    base_details == inner_or_empty(v0.nft_details, collection_id),
                    total_amount(types@.take(t as int)) == 0 ==> minted(base_details, who, collection_id, types@.take(t as int)) == base_details,
                    pallet == v0.config.pallet_account,
                    pallet == old(self)@.config.pallet_account,
                    self.calls@.len() >= listed_calls.len(),
                    self.calls@.subrange(0, listed_calls.len() as int) == listed_calls,
                    calls_since(listed_calls, self.calls@) == head + items_calls(collection_id, who, pallet, types@, metadata@, t as int)
                        + type_calls(collection_id, who, pallet, start as int, 2 * y, metadata@[t as int]),
                    head == seq![ProjectsCall::SetCollectionMetadata { who, collection: collection_id, data, result: Ok(()) }],
                    plan == list_plan(collection_id, who, pallet, data, types@, metadata@),
                    listed_calls.len() == old(self).calls@.len() + 3,
                    listed_calls.subrange(0, old(self).calls@.len() as int) == old(self).calls@,
                    calls_since(old(self).calls@, listed_calls) == seq![
                        ProjectsCall::NextCollectionId { id: next },
                        ProjectsCall::SetNextCollectionId { id: collection_id.checked_add(1) },
                        ProjectsCall::CreateCollection { collection: collection_id, owner: who, result: created },
                    ],
                    created is Ok,
                    who == origin->Signed_0,
                    collection_id == collection_read(ProjectsCall::NextCollectionId { id: next }),
                decreases nft_type.amount - y,
            {
                let item_id = nft_id_index;
                let nft = NftDetails { project_owner: who, price: nft_type.price, collection_id, item_id };
                let minted_item: Result<(), DispatchError> = match runtime.mint(collection_id, item_id, pallet) {
                    Ok(()) => Ok(()),
                    Err(e) => Err(e),
                };
                let ghost pre0 = calls_since(listed_calls, self.calls@);
                let ghost mc = ProjectsCall::Mint { collection: collection_id, item: item_id, owner: pallet, result: minted_item };
                self.calls = Ghost(self.calls@.push(mc));
                proof {
                    assert(self.calls@.subrange(0, listed_calls.len() as int) =~= listed_calls);
                    assert(calls_since(listed_calls, self.calls@) =~= pre0.push(mc));
                    assert(self.calls@.subrange(0, old(self).calls@.len() as int) =~= old(self).calls@);
                    assert(calls_since(old(self).calls@, self.calls@).subrange(3, calls_since(old(self).calls@, self.calls@).len() as int)
                        =~= calls_since(listed_calls, self.calls@));
                    assert(calls_since(old(self).calls@, self.calls@)[0] == calls_since(old(self).calls@, listed_calls)[0]);
                    assert(calls_since(old(self).calls@, self.calls@)[1] == calls_since(old(self).calls@, listed_calls)[1]);
                    assert(calls_since(old(self).calls@, self.calls@)[2] == calls_since(old(self).calls@, listed_calls)[2]);
                    lemma_list_step(collection_id, who, pallet, data, types@, metadata@, t as int, 2 * y);
                    let nxt = type_calls(collection_id, who, pallet, start as int, 2 * y + 1, metadata@[t as int])[2 * y];
                    assert((2 * y) / 2 == y);
                    assert(nxt == (ProjectsCall::Mint { collection: collection_id, item: item_id, owner: pallet, result: Ok(()) }));
                    assert forall|j: int| 0 <= j < pre0.len() implies answer(#[trigger] pre0[j]) is Some by {
                        assert(pre0[j] == plan[j]);
                    }
                    assert(plan =~= pre0 + plan.skip(pre0.len() as int));
                    if minted_item is Err {
                        lemma_buy_refused(plan, pre0, plan.skip(pre0.len() as int), mc);
                    } else {
                        assert(pre0.push(mc) =~= head + items_calls(collection_id, who, pallet, types@, metadata@, t as int)
                            + type_calls(collection_id, who, pallet, start as int, 2 * y + 1, metadata@[t as int]));
                    }
                }
                match minted_item {
                    Ok(()) => {},
                    Err(e) => {
                        return Err(e);
                    },
                }
                let item_metadata: Result<(), DispatchError> = match runtime.set_metadata(who, collection_id, item_id, &metadata[t]) {
                    Ok(()) => Ok(()),
                    Err(e) => Err(e),
                };
                let ghost pre1 = calls_since(listed_calls, self.calls@);
                let ghost md = ProjectsCall::SetMetadata { who, collection: collection_id, item: item_id, data: metadata@[t as int], result: item_metadata };
                self.calls = Ghost(self.calls@.push(md));
                proof {
                    assert(self.calls@.subrange(0, listed_calls.len() as int) =~= listed_calls);
                    assert(calls_since(listed_calls, self.calls@) =~= pre1.push(md));
                    assert(self.calls@.subrange(0, old(self).calls@.len() as int) =~= old(self).calls@);
                    assert(calls_since(old(self).calls@, self.calls@).subrange(3, calls_since(old(self).calls@, self.calls@).len() as int)
                        =~= calls_since(listed_calls, self.calls@));
                    assert(calls_since(old(self).calls@, self.calls@)[0] == calls_since(old(self).calls@, listed_calls)[0]);
                    assert(calls_since(old(self).calls@, self.calls@)[1] == calls_since(old(self).calls@, listed_calls)[1]);
                    assert(calls_since(old(self).calls@, self.calls@)[2] == calls_since(old(self).calls@, listed_calls)[2]);
                    lemma_list_step(collection_id, who, pallet, data, types@, metadata@, t as int, 2 * y + 1);
                    let nxt = type_calls(collection_id, who, pallet, start as int, 2 * y + 2, metadata@[t as int])[2 * y + 1];
                    assert((2 * y + 1) / 2 == y);
                    assert((2 * y + 1) % 2 == 1);
                    assert(nxt == (ProjectsCall::SetMetadata { who, collection: collection_id, item: item_id, data: metadata@[t as int], result: Ok(()) }));
                    assert forall|j: int| 0 <= j < pre1.len() implies answer(#[trigger] pre1[j]) is Some by {
                        assert(pre1[j] == plan[j]);
                    }
                    assert(plan =~= pre1 + plan.skip(pre1.len() as int));
                    if item_metadata is Err {
                        lemma_buy_refused(plan, pre1, plan.skip(pre1.len() as int), md);
                    } else {
                        assert(pre1.push(md) =~= head + items_calls(collection_id, who, pallet, types@, metadata@, t as int)
                            + type_calls(collection_id, who, pallet, start as int, 2 * (y + 1), metadata@[t as int]));
                    }
                }
                match item_metadata {
                    Ok(()) => {},
                    Err(e) => {
                        return Err(e);
                    },
                }
                if nft_type_vec.len() < max as usize {
                    nft_type_vec.push(item_id);
                }
                let ghost before = self@;
                set_entry(&mut self.ongoing_nft_details, collection_id, item_id, nft);
                proof {
                    let prev = minted(base_details, who, collection_id, types@.take(t as int));
                    let cur = add_range(prev, who, collection_id, nft_type.price, start as int, y as int);
                    let next = add_range(prev, who, collection_id, nft_type.price, start as int, y as int + 1);
                    assert(inner_or_empty(before.nft_details, collection_id).insert(item_id, nft) =~= next) by {
                        if start + y == 0 {
                            assert(add_range(prev, who, collection_id, nft_type.price, start as int, 0) =~= prev);
                        }
                    }
                    assert(nft_type_vec@ =~= listing_of(start as int, (y + 1) as u32, max));
                }
                nft_id_index = nft_id_index + 1;
                y = y + 1;
            }
            let ghost before = self@;
            set_listed(&mut self.listed_nft_types, collection_id, number_nft_types, nft_type_vec);
            proof {
                let prev = minted(base_details, who, collection_id, types@.take(t as int));
                assert(minted(base_details, who, collection_id, types@.take(t as int + 1)) == add_range(prev, who, collection_id, nft_type.price, start as int, nft_type.amount as int));
                assert(listings(base_listed, types@.take(t as int + 1), max) == listings(base_listed, types@.take(t as int), max).insert(
                    (t + 1) as u8,
                    listing_of(start as int, nft_type.amount, max),
                ));
                if t == 0 {
                    assert(listings(base_listed, types@.take(0), max) == base_listed);
                }
                if total_amount(types@.take(t as int + 1)) == 0 {
                    assert(add_range(prev, who, collection_id, nft_type.price, start as int, 0) =~= prev);
                }
                assert(self@ =~= ProjectsView {
                    projects: self@.projects,
                    nft_details: if total_amount(types@.take(t as int + 1)) == 0 {
                        v0.nft_details
                    } else {
                        v0.nft_details.insert(collection_id, minted(base_details, who, collection_id, types@.take(t as int + 1)))
                    },
                    listed: v0.listed.insert(collection_id, listings(base_listed, types@.take(t as int + 1), max)),
                    ..v0
                });
                lemma_list_step(collection_id, who, pallet, data, types@, metadata@, t as int, 2 * nft_type.amount);
            }
            number_nft_types = number_nft_types + 1;
            t = t + 1;
        }
        let team: Result<(), DispatchError> = match runtime.set_team(who, collection_id) {
            Ok(()) => Ok(()),
            Err(e) => Err(e),
        };
        let ghost pre = calls_since(listed_calls, self.calls@);
        let ghost tc = ProjectsCall::SetTeam { who, collection: collection_id, result: team };
        self.calls = Ghost(self.calls@.push(tc));
        proof {
            assert(self.calls@.subrange(0, listed_calls.len() as int) =~= listed_calls);
            assert(self.calls@.subrange(0, old(self).calls@.len() as int) =~= old(self).calls@);
            assert(calls_since(listed_calls, self.calls@) =~= pre.push(tc));
            let seg = calls_since(old(self).calls@, self.calls@);
            assert(seg.subrange(3, seg.len() as int) =~= pre.push(tc));
            assert(seg[0] == calls_since(old(self).calls@, listed_calls)[0]);
            assert(seg[1] == calls_since(old(self).calls@, listed_calls)[1]);
            assert(seg[2] == calls_since(old(self).calls@, listed_calls)[2]);
            let last = ProjectsCall::SetTeam { who, collection: collection_id, result: Ok(()) };
            assert(plan =~= pre + seq![last]);
            lemma_items_prefix(collection_id, who, pallet, types@, metadata@, types@.len() as int, types@.len() as int);
            assert forall|j: int| 0 <= j < pre.len() implies answer(#[trigger] pre[j]) is Some by {
                if j >= 1 {
                    assert(pre[j] == items_calls(collection_id, who, pallet, types@, metadata@, types@.len() as int)[j - 1]);
                }
            }
            if team is Err {
                lemma_buy_refused(plan, pre, seq![last], tc);
            } else {
                assert(pre.push(tc) =~= plan);
            }
        }
        match team {
            Ok(()) => {},
            Err(e) => {
                return Err(e);
            },
        }
        self.events.push(Event::ProjectListed { collection_index: collection_id, seller: who });
        proof {
            assert(types@.take(types.len() as int) =~= types@);
            assert(self@ =~= Self::listed_project(v0, who, collection_id, types@, duration, price));
        }
        Ok(())
    }
}

/// An amount in `u64` as an xUSD balance.
pub fn u64_to_balance_option(input: u64) -> (r: Result<Balance, Error>)
    ensures
        r == Ok::<Balance, Error>(input as Balance),
{
    Ok(input as u128)
}

/// An amount in `u128` as an xUSD balance.
pub fn u128_to_balance_option(input: u128) -> (r: Result<Balance, Error>)
    ensures
        r == Ok::<Balance, Error>(input),
{
    Ok(input)
}

/// An xUSD balance as `u128`.
pub fn balance_xusd_to_u128(input: Balance) -> (r: Result<u128, Error>)
    ensures
        r == Ok::<u128, Error>(input),
{
    Ok(input)
}

/// An xUSD balance as a native balance.
pub fn balance_xusd_to_balance_native(input: Balance) -> (r: Result<Balance, Error>)
    ensures
        r == Ok::<Balance, Error>(input),
{
    Ok(input)
}

/// A native balance as an xUSD balance.
pub fn balance_native_to_balance_xusd(input: Balance) -> (r: Result<Balance, Error>)
    ensures
        r == Ok::<Balance, Error>(input),
{
    Ok(input)
}

/// A native balance as `u128`.
pub fn balance_native_to_u128(input: Balance) -> (r: Result<u128, Error>)
    ensures
        r == Ok::<u128, Error>(input),
{
    Ok(input)
}

/// An amount in `u128` as a native balance.
pub fn u128_to_balance_native_option(input: u128) -> (r: Result<Balance, Error>)
    ensures
        r == Ok::<Balance, Error>(input),
{
    Ok(input)
}

/// Removes and returns the listed NFTs of type `t` of collection `k`.
fn take_listed(m: &mut BTreeMap<CollectionId, BTreeMap<u8, Vec<ItemId>>>, k: CollectionId, t: u8) -> (r: Option<Vec<ItemId>>)
    ensures
        match r {
            Some(v) => listed_view(old(m)@).dom().contains(k) && listed_view(old(m)@)[k].dom().contains(t) && v@ == listed_view(old(m)@)[k][t]
                && listed_view(final(m)@) == listed_view(old(m)@).insert(k, listed_view(old(m)@)[k].remove(t)),
            None => !(listed_view(old(m)@).dom().contains(k) && listed_view(old(m)@)[k].dom().contains(t))
                && listed_view(final(m)@) == listed_view(old(m)@),
        },
{
    let ghost m0 = listed_view(old(m)@);
    let ghost raw = old(m)@;
    match m.remove(&k) {
        Some(mut inner) => {
            let ghost inner0 = inner@;
            match inner.remove(&t) {
                Some(v) => {
                    m.insert(k, inner);
                    assert(listed_view(m@)[k] =~= m0[k].remove(t));
                    assert(listed_view(m@) =~= m0.insert(k, m0[k].remove(t)));
                    Some(v)
                },
                None => {
                    m.insert(k, inner);
                    assert(listed_view(m@)[k] =~= m0[k]);
                    assert(listed_view(m@) =~= m0);
                    None
                },
            }
        },
        None => None,
    }
}

/// The amount a payout sends in all, in xUSD and native tokens.
pub open spec fn payout_total(p: Payout) -> int {
    match p {
        Payout::Xusd(x) => x as int,
        Payout::Native(n) => n as int,
        Payout::Split(x, n) => x + n,
    }
}

/// The part of a payout paid in native tokens.
pub open spec fn payout_native(p: Payout) -> int {
    match p {
        Payout::Xusd(_) => 0,
        Payout::Native(n) => n as int,
        Payout::Split(_, n) => n as int,
    }
}

/// Each milestone of a project with milestones left pays its owner one round of funds, the
/// project's balance split evenly over its milestones, and no more of it in native tokens than
/// bonding raised.
pub proof fn payout_is_one_round(p: ProjectDetails)
    requires
        payout_fits(p),
        1 <= p.remaining_milestones <= p.milestones,
    ensures
        payout_total(payout(p)) == funds_for_round(p),
        payout_native(payout(p)) <= p.project_bonding_balance,
{
    let fr = funds_for_round(p);
    assert(fr * p.remaining_milestones >= fr) by (nonlinear_arith)
        requires
            fr >= 0,
            p.remaining_milestones >= 1,
    ;
}

/// A holder votes once per voting period: a second vote is refused.
pub proof fn one_vote_per_holder(v: ProjectsView, whitelist: Set<AccountId>, coll: CollectionId, voter: AccountId, first: Vote, second: Vote)
    requires
        Pallet::vote_error(v, Origin::Signed(voter), whitelist, coll) is None,
    ensures
        Pallet::vote_error(Pallet::voted_on(v, coll, voter, first), Origin::Signed(voter), whitelist, coll) == Some(
            DispatchError::Module(Error::AlreadyVoted),
        ),
{
}

/// What the holders of a failed project can claim back is at most what the NFTs raised, and
/// each holder at most the xUSD it paid.
pub proof fn refunds_stay_within_what_was_raised(p: ProjectDetails, power: u64)
    requires
        0 < p.milestones,
        p.remaining_milestones <= p.milestones,
        p.project_bonding_balance <= p.project_balance,
    ensures
        remaining_percentage(p) <= 10000,
        refundable_balance(p) <= p.project_balance - p.project_bonding_balance,
        refund_of(power, remaining_percentage(p)) <= power,
{
    let m = p.milestones as int;
    let r = p.remaining_milestones as int;
    assert(r * 10000 <= m * 10000) by (nonlinear_arith)
        requires
            r <= m,
    ;
    let scaled: int = if r * 10000 > u32::MAX { u32::MAX as int } else { r * 10000 };
    assert(scaled <= m * 10000);
    assert(scaled / m <= 10000) by (nonlinear_arith)
        requires
            0 <= scaled <= m * 10000,
            m > 0,
    ;
    let pct = remaining_percentage(p) as int;
    let raised = p.project_balance - p.project_bonding_balance;
    assert(raised * pct <= raised * 10000) by (nonlinear_arith)
        requires
            raised >= 0,
            0 <= pct <= 10000,
    ;
    let rs: int = if raised * pct > u128::MAX { u128::MAX as int } else { raised * pct };
    assert(rs / 10000 <= raised) by (nonlinear_arith)
        requires
            0 <= rs <= raised * 10000,
    ;
    assert(power * pct <= power * 10000) by (nonlinear_arith)
        requires
            0 <= pct <= 10000,
    ;
    let ps: int = if power * pct > u64::MAX { u64::MAX as int } else { power * pct };
    assert(ps / 10000 <= power) by (nonlinear_arith)
        requires
            0 <= ps <= power * 10000,
    ;
}

/// Bonding moves the bonded amount into the project's balance and the totals: the project's
/// balance, its bonded part, the bonder's stakes and the total bonded all grow by it.
pub proof fn bonding_adds_up(v: ProjectsView, coll: CollectionId, who: AccountId, b: Balance, pallet_free: Balance)
    requires
        v.projects.dom().contains(coll),
        Pallet::bond_check(v, coll, who, b, pallet_free) is None,
    ensures
        Pallet::bonded(v, coll, who, b).projects[coll].project_balance == v.projects[coll].project_balance + b,
        Pallet::bonded(v, coll, who, b).projects[coll].project_bonding_balance == v.projects[coll].project_bonding_balance + b,
        bonded_of(Pallet::bonded(v, coll, who, b), coll, who) == bonded_of(v, coll, who) + b,
        user_bonded_of(Pallet::bonded(v, coll, who, b), who) == user_bonded_of(v, who) + b,
        Pallet::bonded(v, coll, who, b).total_bonded == v.total_bonded + b,
{
}

/// Claiming back a bonding takes exactly the bonder's stake in that project out of the totals,
/// and leaves no stake of it.
pub proof fn unbonding_takes_the_stake_back(v: ProjectsView, coll: CollectionId, who: AccountId)
    requires
        Pallet::unbond_error(v, Origin::Signed(who), coll) is None,
        bonded_of(v, coll, who) <= v.total_bonded,
        bonded_of(v, coll, who) <= v.ended_projects[coll].bonding_balance,
    ensures
        Pallet::unbonded(v, coll, who).total_bonded == v.total_bonded - bonded_of(v, coll, who),
        entry(Pallet::unbonded(v, coll, who).bonding, coll, who) is None,
        user_bonded_of(Pallet::unbonded(v, coll, who), who) == (if v.user_bonded[who] >= bonded_of(v, coll, who) {
            v.user_bonded[who] - bonded_of(v, coll, who)
        } else {
            0
        }),
{
}

} // verus!
