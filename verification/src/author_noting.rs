//! Author noting: once per block, for every container chain that has collators, the header of
//! its latest block is read from the relay chain state, the Aura slot in its digest gives the
//! collator that authored it (they take turns, one slot each), and the latest author of the
//! chain is noted when the block number increased.
//!
//! The relay chain state is handed in as what it holds for the head of each chain: a header,
//! or why none could be read. The collators of each chain come from the collator assignment.

use vstd::prelude::*;
use std::collections::BTreeMap;
use parity_scale_codec::Decode;
use crate::assignment::{AccountId, ParaId};
use crate::collator_assignment::{chain_collators, CollatorAssignmentPallet, ForSession};
use crate::maps::seqs;
use crate::origin::Origin;

verus! {

/// The Aura consensus engine id, `b"aura"`.
pub const AURA_ENGINE_ID: [u8; 4] = [97, 117, 114, 97];

/// The latest block of a container chain that was noted, and who authored it.
#[derive(Debug, Clone, Copy, PartialEq, Eq, Structural)]
pub struct ContainerChainBlockInfo {
    pub block_number: u32,
    pub author: AccountId,
    /// The Tanssi slot at which the block was noted.
    pub latest_slot_number: u64,
}

/// A newly noted block, for whom rewards its author.
#[derive(Debug, Clone, Copy, PartialEq, Eq, Structural)]
pub struct AuthorNotingInfo {
    pub author: AccountId,
    pub block_number: u32,
    pub para_id: ParaId,
}

/// An item of a header's digest.
#[derive(Debug, Clone, PartialEq, Eq)]
pub enum DigestItem {
    /// Put by the block author before the runtime ran: the engine id and its data.
    PreRuntime([u8; 4], Vec<u8>),
    /// A message from the runtime to the consensus engine.
    Consensus([u8; 4], Vec<u8>),
    /// A seal of the block author.
    Seal([u8; 4], Vec<u8>),
    /// Something else.
    Other(Vec<u8>),
    /// The runtime environment was updated.
    RuntimeEnvironmentUpdated,
}

/// The parts of a container chain's header that are read here.
#[derive(Debug, Clone, PartialEq, Eq)]
pub struct Header {
    pub number: u32,
    pub logs: Vec<DigestItem>,
}

/// What the relay chain state holds for the head of a container chain.
#[derive(Debug, Clone, PartialEq, Eq)]
pub enum HeadRead {
    /// The head could not be read.
    ReadFailed,
    /// The head is not a header.
    Undecodable,
    /// The header of the head.
    Decoded(Header),
}

/// Errors of the pallet.
#[derive(Debug, Clone, Copy, PartialEq, Eq, Structural)]
pub enum Error {
    FailedReading,
    FailedDecodingHeader,
    AuraDigestFirstItem,
    AsPreRuntimeError,
    NonDecodableSlot,
    AuthorNotFound,
    NonAuraDigest,
}

/// Why a call failed.
#[derive(Debug, Clone, Copy, PartialEq, Eq, Structural)]
pub enum DispatchError {
    /// The origin may not make this call.
    BadOrigin,
    /// An error of this pallet.
    Module(Error),
}

/// Events of the pallet.
#[derive(Debug, Clone, Copy, PartialEq, Eq, Structural)]
pub enum Event {
    /// Latest author changed
    LatestAuthorChanged { para_id: ParaId, block_number: u32, new_author: AccountId, latest_slot_number: u64 },
    /// Removed author data
    RemovedAuthorData { para_id: ParaId },
}

/// The value of the first eight bytes of `s`, little-endian.
pub open spec fn le_u64(s: Seq<u8>) -> u64 {
    (s[0] as int + 0x100 * s[1] + 0x1_0000 * s[2] + 0x100_0000 * s[3] + 0x1_0000_0000 * s[4] + 0x100_0000_0000 * s[5]
        + 0x1_0000_0000_0000 * s[6] + 0x100_0000_0000_0000 * s[7]) as u64
}

/// Calls the SCALE `Decode` of `u64` (`parity_scale_codec`) on `data`: the first eight bytes
/// little-endian, or an error when there are fewer; bytes after them are left unread.
#[verifier::external_body]
fn decode_slot(data: &[u8]) -> (r: Option<u64>)
    ensures
        r == (if data@.len() >= 8 { Some(le_u64(data@)) } else { None::<u64> }),
{
    let mut input = data;
    <u64 as Decode>::decode(&mut input).ok()
}

/// The author of `slot` on `para_id` by the current assignment: the collators take turns, one
/// slot each.
pub open spec fn author_spec(a: CollatorAssignmentPallet, slot: u64, para_id: ParaId) -> Option<AccountId> {
    match chain_collators(a.collator_container_chain@, a.self_para_id, para_id) {
        Some(cs) => if cs.len() == 0 { None } else { Some(cs[(slot % (cs.len() as u64)) as int]) },
        None => None,
    }
}

/// Whether a digest item is an Aura one.
pub open spec fn is_aura(id: [u8; 4]) -> bool {
    id@ == AURA_ENGINE_ID@
}

/// The block info that a digest item gives: an Aura pre-runtime item holds the slot of the
/// block, and the slot its author.
pub open spec fn log_author(d: DigestItem, para_id: ParaId, number: u32, tanssi_slot: u64, a: CollatorAssignmentPallet) -> Result<ContainerChainBlockInfo, Error> {
    match d {
        DigestItem::PreRuntime(id, data) => if !is_aura(id) {
            Err(Error::NonAuraDigest)
        } else if data@.len() < 8 {
            Err(Error::NonDecodableSlot)
        } else {
            match author_spec(a, le_u64(data@), para_id) {
                Some(author) => Ok(ContainerChainBlockInfo { block_number: number, author, latest_slot_number: tanssi_slot }),
                None => Err(Error::AuthorNotFound),
            }
        },
        _ => Err(Error::AsPreRuntimeError),
    }
}

/// The block info that the first digest item able to give one gives; otherwise the error of
/// the first item, or `AuraDigestFirstItem` when there is none.
pub open spec fn first_author(logs: Seq<DigestItem>, para_id: ParaId, number: u32, tanssi_slot: u64, a: CollatorAssignmentPallet) -> Result<ContainerChainBlockInfo, Error>
    decreases logs.len(),
{
    if logs.len() == 0 {
        Err(Error::AuraDigestFirstItem)
    } else {
        match log_author(logs[0], para_id, number, tanssi_slot, a) {
            Ok(info) => Ok(info),
            Err(e) => match first_author(logs.drop_first(), para_id, number, tanssi_slot, a) {
                Ok(info) => Ok(info),
                Err(_) => Err(e),
            },
        }
    }
}

/// The block info that a chain's head gives.
pub open spec fn fetch_spec(h: HeadRead, para_id: ParaId, tanssi_slot: u64, a: CollatorAssignmentPallet) -> Result<ContainerChainBlockInfo, Error> {
    match h {
        HeadRead::ReadFailed => Err(Error::FailedReading),
        HeadRead::Undecodable => Err(Error::FailedDecodingHeader),
        HeadRead::Decoded(header) => first_author(header.logs@, para_id, header.number, tanssi_slot, a),
    }
}

/// Whether container chain `p` has collators in the current assignment, so that its author is
/// noted.
pub open spec fn checked(a: CollatorAssignmentPallet, p: ParaId) -> bool {
    &&& a.collator_container_chain@.1.dom().contains(p)
    &&& a.collator_container_chain@.1[p].len() > 0
}

/// The block number noted for `p` (zero when none).
pub open spec fn old_number(latest: Map<ParaId, ContainerChainBlockInfo>, p: ParaId) -> u32 {
    if latest.dom().contains(p) { latest[p].block_number } else { 0 }
}

/// Whether a new block of `p` is noted: the chain is checked, its head gives a block info and
/// the block number increased.
pub open spec fn noted(
    latest: Map<ParaId, ContainerChainBlockInfo>,
    heads: Map<ParaId, HeadRead>,
    a: CollatorAssignmentPallet,
    tanssi_slot: u64,
    p: ParaId,
) -> bool {
    &&& checked(a, p)
    &&& fetch_spec(heads[p], p, tanssi_slot, a) is Ok
    &&& fetch_spec(heads[p], p, tanssi_slot, a)->Ok_0.block_number > old_number(latest, p)
}

/// The latest authors once the heads were read.
pub open spec fn noted_latest(
    latest: Map<ParaId, ContainerChainBlockInfo>,
    heads: Map<ParaId, HeadRead>,
    a: CollatorAssignmentPallet,
    tanssi_slot: u64,
) -> Map<ParaId, ContainerChainBlockInfo> {
    Map::new(
        |p: ParaId| latest.dom().contains(p) || noted(latest, heads, a, tanssi_slot, p),
        |p: ParaId| if noted(latest, heads, a, tanssi_slot, p) { fetch_spec(heads[p], p, tanssi_slot, a)->Ok_0 } else { latest[p] },
    )
}

/// What is reported of a noted block of `p`.
pub open spec fn noting_info(heads: Map<ParaId, HeadRead>, a: CollatorAssignmentPallet, tanssi_slot: u64, p: ParaId) -> AuthorNotingInfo {
    let info = fetch_spec(heads[p], p, tanssi_slot, a)->Ok_0;
    AuthorNotingInfo { author: info.author, block_number: info.block_number, para_id: p }
}

/// Whether `p` is among the first `i` chains listed.
pub open spec fn seen(chains: Seq<(ParaId, Vec<AccountId>)>, i: int, p: ParaId) -> bool {
    exists|k: int| 0 <= k < i && #[trigger] chains[k].0 == p
}

/// Whether a digest item is the Aura engine's.
fn is_aura_id(id: &[u8; 4]) -> (r: bool)
    ensures
        r == is_aura(*id),
{
    let r = id[0] == 97 && id[1] == 117 && id[2] == 114 && id[3] == 97;
    proof {
        assert(AURA_ENGINE_ID@ =~= seq![97u8, 117u8, 114u8, 97u8]);
        if r {
            assert(id@ =~= AURA_ENGINE_ID@);
        }
    }
    r
}

/// Get block author from aura digest
pub fn author_from_log(
    aura_digest: &DigestItem,
    para_id: ParaId,
    block_number: u32,
    tanssi_slot: u64,
    assignment: &CollatorAssignmentPallet,
) -> (r: Result<ContainerChainBlockInfo, Error>)
    ensures
        r == log_author(*aura_digest, para_id, block_number, tanssi_slot, *assignment),
{
    match aura_digest {
        DigestItem::PreRuntime(id, data) => {
            if !is_aura_id(id) {
                return Err(Error::NonAuraDigest);
            }
            let slot = match decode_slot(data.as_slice()) {
                Some(s) => s,
                None => {
                    return Err(Error::NonDecodableSlot);
                },
            };
            match assignment.author_for_slot(slot, para_id) {
                Some(author) => Ok(ContainerChainBlockInfo { block_number, author, latest_slot_number: tanssi_slot }),
                None => Err(Error::AuthorNotFound),
            }
        },
        _ => Err(Error::AsPreRuntimeError),
    }
}

/// The block info that the logs from index `i` on give.
fn author_from_logs(
    logs: &Vec<DigestItem>,
    i: usize,
    para_id: ParaId,
    block_number: u32,
    tanssi_slot: u64,
    assignment: &CollatorAssignmentPallet,
) -> (r: Result<ContainerChainBlockInfo, Error>)
    requires
        i <= logs@.len(),
    ensures
        r == first_author(logs@.skip(i as int), para_id, block_number, tanssi_slot, *assignment),
    decreases logs@.len() - i,
{
    if i == logs.len() {
        assert(logs@.skip(i as int).len() == 0);
        return Err(Error::AuraDigestFirstItem);
    }
    assert(logs@.skip(i as int)[0] == logs@[i as int]);
    assert(logs@.skip(i as int).drop_first() =~= logs@.skip(i as int + 1));
    match author_from_log(&logs[i], para_id, block_number, tanssi_slot, assignment) {
        Ok(info) => Ok(info),
        Err(e) => match author_from_logs(logs, i + 1, para_id, block_number, tanssi_slot, assignment) {
            Ok(info) => Ok(info),
            Err(_) => Err(e),
        },
    }
}

/// Fetch author and block number from what the relay chain state holds for the head of
/// `para_id`: the author is given by the first digest item able to give one.
pub fn fetch_block_info_from_proof(
    head: &HeadRead,
    para_id: ParaId,
    tanssi_slot: u64,
    assignment: &CollatorAssignmentPallet,
) -> (r: Result<ContainerChainBlockInfo, Error>)
    ensures
        r == fetch_spec(*head, para_id, tanssi_slot, *assignment),
{
    match head {
        HeadRead::ReadFailed => Err(Error::FailedReading),
        HeadRead::Undecodable => Err(Error::FailedDecodingHeader),
        HeadRead::Decoded(header) => {
            assert(header.logs@.skip(0) =~= header.logs@);
            author_from_logs(&header.logs, 0, para_id, header.number, tanssi_slot, assignment)
        },
    }
}

/// State of the author noting pallet.
pub struct Pallet {
    /// The latest block noted of each container chain.
    pub latest_author: BTreeMap<ParaId, ContainerChainBlockInfo>,
    /// Whether the authors were noted in this block.
    pub did_set_container_author_data: bool,
    /// Events deposited so far.
    pub events: Vec<Event>,
}

impl Pallet {
    /// A pallet with nothing noted.
    pub fn new() -> (r: Self)
        ensures
            r.latest_author@ == Map::<ParaId, ContainerChainBlockInfo>::empty(),
            !r.did_set_container_author_data,
            r.events@ == Seq::<Event>::empty(),
    {
        Pallet { latest_author: BTreeMap::new(), did_set_container_author_data: false, events: Vec::new() }
    }

    /// The block hook at the start of a block: the authors are to be noted again.
    pub fn on_initialize(&mut self)
        ensures
            !final(self).did_set_container_author_data,
            final(self).latest_author@ == old(self).latest_author@,
            final(self).events@ == old(self).events@,
    {
        self.did_set_container_author_data = false;
    }

    /// The block hook at the end of a block, which the authors must have been noted in.
    pub fn on_finalize(&self)
        requires
            self.did_set_container_author_data,
    {
    }

    /// Notes the latest author of every container chain that has collators in the current
    /// assignment, from what the relay chain state at Tanssi slot `tanssi_slot` holds for its
    /// head; a chain whose head gives no author, or no block newer than the noted one, keeps
    /// its entry. Returns the newly noted blocks, by increasing chain id, which the rewards
    /// hook is then called with; when no chain has collators nothing is read and the hook is
    /// not called, which the result tells by `None`. Only an unsigned (inherent) call may
    /// note, once per block, and the relay chain state must hold the head of every chain it
    /// notes.
    pub fn set_latest_author_data(
        &mut self,
        origin: Origin,
        heads: &BTreeMap<ParaId, HeadRead>,
        assignment: &CollatorAssignmentPallet,
        tanssi_slot: u64,
    ) -> (res: Result<Option<Vec<AuthorNotingInfo>>, DispatchError>)
        requires
            origin is Unsigned ==> {
                &&& !old(self).did_set_container_author_data
                &&& forall|p: ParaId| #[trigger] checked(*assignment, p) ==> heads@.dom().contains(p)
            },
        ensures
            final(self).events@ == old(self).events@,
            !(origin is Unsigned) ==> res == Err::<Option<Vec<AuthorNotingInfo>>, DispatchError>(DispatchError::BadOrigin)
                && final(self).latest_author@ == old(self).latest_author@
                && final(self).did_set_container_author_data == old(self).did_set_container_author_data,
            origin is Unsigned ==> {
                &&& res is Ok
                &&& final(self).did_set_container_author_data
                &&& final(self).latest_author@ == noted_latest(old(self).latest_author@, heads@, *assignment, tanssi_slot)
                &&& (res->Ok_0 is Some <==> exists|p: ParaId| #[trigger] checked(*assignment, p))
            },
            res matches Ok(Some(infos)) ==> {
                &&& forall|i: int, j: int| 0 <= i < j < infos@.len() ==> infos@[i].para_id < infos@[j].para_id
                &&& forall|i: int| 0 <= i < infos@.len() ==> noted(old(self).latest_author@, heads@, *assignment, tanssi_slot, #[trigger] infos@[i].para_id)
                    && infos@[i] == noting_info(heads@, *assignment, tanssi_slot, infos@[i].para_id)
                &&& forall|p: ParaId| #[trigger] noted(old(self).latest_author@, heads@, *assignment, tanssi_slot, p) ==> exists|i: int|
                    0 <= i < infos@.len() && infos@[i].para_id == p
            },
    {
        match origin {
            Origin::Unsigned => {},
            _ => {
                return Err(DispatchError::BadOrigin);
            },
        }
        let ghost latest0 = self.latest_author@;
        let chains = assignment.container_chains_with_collators(ForSession::Current);
        let ghost m = assignment.collator_container_chain@.1;
        assert(m == seqs(assignment.collator_container_chain.container_chains@));
        let mut infos: Vec<AuthorNotingInfo> = Vec::new();
        let mut any_checked: bool = false;
        let mut i: usize = 0;
        while i < chains.len()
            invariant
                0 <= i <= chains.len(),
                any_checked <==> exists|k: int| 0 <= k < i && #[trigger] chains@[k].1@.len() > 0,
                m == assignment.collator_container_chain@.1,
                chains@.len() == m.dom().len(),
                forall|k: int| 0 <= k < chains@.len() ==> m.dom().contains(#[trigger] chains@[k].0) && chains@[k].1@ == m[chains@[k].0],
                forall|p: ParaId| m.dom().contains(p) ==> exists|k: int| 0 <= k < chains@.len() && #[trigger] chains@[k].0 == p,
                forall|k: int, l: int| 0 <= k < l < chains@.len() ==> chains@[k].0 < chains@[l].0,
                forall|p: ParaId| #[trigger] checked(*assignment, p) ==> heads@.dom().contains(p),
                self.latest_author@ == Map::new(
                    |p: ParaId| latest0.dom().contains(p) || (noted(latest0, heads@, *assignment, tanssi_slot, p) && seen(chains@, i as int, p)),
                    |p: ParaId| if noted(latest0, heads@, *assignment, tanssi_slot, p) && seen(chains@, i as int, p) {
                        fetch_spec(heads@[p], p, tanssi_slot, *assignment)->Ok_0
                    } else {
                        latest0[p]
                    },
                ),
                forall|a: int, b: int| 0 <= a < b < infos@.len() ==> infos@[a].para_id < infos@[b].para_id,
                forall|a: int| 0 <= a < infos@.len() ==> noted(latest0, heads@, *assignment, tanssi_slot, #[trigger] infos@[a].para_id)
                    && infos@[a] == noting_info(heads@, *assignment, tanssi_slot, infos@[a].para_id)
                    && seen(chains@, i as int, infos@[a].para_id),
                forall|k: int| 0 <= k < i && noted(latest0, heads@, *assignment, tanssi_slot, #[trigger] chains@[k].0) ==> exists|a: int|
                    0 <= a < infos@.len() && infos@[a].para_id == chains@[k].0,
                self.events@ == old(self).events@,
            decreases chains.len() - i,
        {
            let para_id = chains[i].0;
            let ghost before = self.latest_author@;
            let ghost infos_before = infos@;
            if chains[i].1.len() > 0 {
                any_checked = true;
                assert(checked(*assignment, para_id));
                let head = heads.get(&para_id).unwrap();
                match fetch_block_info_from_proof(head, para_id, tanssi_slot, assignment) {
                    Ok(block_info) => {
                        let old_block_number = match self.latest_author.get(&para_id) {
                            Some(info) => info.block_number,
                            None => 0,
                        };
                        proof {
                            assert(!seen(chains@, i as int, para_id)) by {
                                if seen(chains@, i as int, para_id) {
                                    let k = choose|k: int| 0 <= k < i && #[trigger] chains@[k].0 == para_id;
                                    assert(chains@[k].0 < chains@[i as int].0);
                                }
                            }
                            assert(old_block_number == old_number(latest0, para_id));
                        }
                        if block_info.block_number > old_block_number {
                            infos.push(AuthorNotingInfo { author: block_info.author, block_number: block_info.block_number, para_id });
                            self.latest_author.insert(para_id, block_info);
                        }
                    },
                    Err(_) => {},
                }
            }
            proof {
                assert forall|p: ParaId| #[trigger] seen(chains@, i + 1, p) <==> (seen(chains@, i as int, p) || p == para_id) by {
                    if p == para_id {
                        assert(chains@[i as int].0 == p);
                    }
                    if seen(chains@, i + 1, p) {
                        let k = choose|k: int| 0 <= k < i + 1 && #[trigger] chains@[k].0 == p;
                        if k < i {
                            assert(seen(chains@, i as int, p));
                        }
                    }
                    if seen(chains@, i as int, p) {
                        let k = choose|k: int| 0 <= k < i && #[trigger] chains@[k].0 == p;
                        assert(0 <= k < i + 1 && chains@[k].0 == p);
                    }
                }
                if !checked(*assignment, para_id) {
                    assert(!noted(latest0, heads@, *assignment, tanssi_slot, para_id));
                }
                assert(self.latest_author@ =~= Map::new(
                    |p: ParaId| latest0.dom().contains(p) || (noted(latest0, heads@, *assignment, tanssi_slot, p) && seen(chains@, i + 1, p)),
                    |p: ParaId| if noted(latest0, heads@, *assignment, tanssi_slot, p) && seen(chains@, i + 1, p) {
                        fetch_spec(heads@[p], p, tanssi_slot, *assignment)->Ok_0
                    } else {
                        latest0[p]
                    },
                ));
                assert forall|a: int| 0 <= a < infos@.len() implies #[trigger] seen(chains@, i + 1, infos@[a].para_id) by {
                    if a < infos_before.len() {
                        let k = choose|k: int| 0 <= k < i && #[trigger] chains@[k].0 == infos@[a].para_id;
                        assert(0 <= k < i + 1 && chains@[k].0 == infos@[a].para_id);
                    } else {
                        assert(chains@[i as int].0 == infos@[a].para_id);
                    }
                }
                assert forall|a: int, b: int| 0 <= a < b < infos@.len() implies infos@[a].para_id < infos@[b].para_id by {
                    if b >= infos_before.len() {
                        let k = choose|k: int| 0 <= k < i && #[trigger] chains@[k].0 == infos@[a].para_id;
                        assert(chains@[k].0 < chains@[i as int].0);
                    }
                }
                assert forall|k: int| 0 <= k < i + 1 && noted(latest0, heads@, *assignment, tanssi_slot, #[trigger] chains@[k].0) implies exists|a: int|
                    0 <= a < infos@.len() && infos@[a].para_id == chains@[k].0 by {
                    if k < i {
                        let a = choose|a: int| 0 <= a < infos_before.len() && infos_before[a].para_id == chains@[k].0;
                        assert(infos@[a] == infos_before[a]);
                    } else {
                        assert(infos@[infos@.len() - 1].para_id == chains@[k].0);
                    }
                }
            }
            i = i + 1;
        }
        proof {
            assert forall|p: ParaId| noted(latest0, heads@, *assignment, tanssi_slot, p) implies #[trigger] seen(chains@, chains@.len() as int, p) by {
                assert(m.dom().contains(p));
            }
            assert(self.latest_author@ =~= noted_latest(latest0, heads@, *assignment, tanssi_slot));
            assert forall|p: ParaId| #[trigger] noted(latest0, heads@, *assignment, tanssi_slot, p) implies exists|a: int| 0 <= a < infos@.len() && infos@[a].para_id == p by {
                assert(seen(chains@, chains@.len() as int, p));
                let k = choose|k: int| 0 <= k < chains@.len() && #[trigger] chains@[k].0 == p;
                assert(noted(latest0, heads@, *assignment, tanssi_slot, chains@[k].0));
            }
        }
        self.did_set_container_author_data = true;
        proof {
            if any_checked {
                let k = choose|k: int| 0 <= k < i && #[trigger] chains@[k].1@.len() > 0;
                assert(checked(*assignment, chains@[k].0));
            }
            if exists|p: ParaId| #[trigger] checked(*assignment, p) {
                let p = choose|p: ParaId| #[trigger] checked(*assignment, p);
                let k = choose|k: int| 0 <= k < chains@.len() && #[trigger] chains@[k].0 == p;
                assert(chains@[k].1@.len() > 0);
            }
        }
        if !any_checked {
            return Ok(None);
        }
        let r: Result<Option<Vec<AuthorNotingInfo>>, DispatchError> = Ok(Some(infos));
        proof {
            assert forall|p: ParaId| #[trigger] noted(latest0, heads@, *assignment, tanssi_slot, p) implies exists|i: int|
                0 <= i < infos@.len() && infos@[i].para_id == p by {
                let a = choose|a: int| 0 <= a < infos@.len() && infos@[a].para_id == p;
                assert(infos@[a].para_id == p);
            }
        }
        r
    }

    /// Root sets the latest block noted of `para_id`.
    pub fn set_author(&mut self, origin: Origin, para_id: ParaId, block_number: u32, author: AccountId, latest_slot_number: u64) -> (res: Result<(), DispatchError>)
        ensures
            final(self).did_set_container_author_data == old(self).did_set_container_author_data,
            origin != Origin::Root ==> res == Err::<(), DispatchError>(DispatchError::BadOrigin) && final(self).latest_author@ == old(self).latest_author@
                && final(self).events@ == old(self).events@,
            origin == Origin::Root ==> res is Ok && final(self).latest_author@ == old(self).latest_author@.insert(
                para_id,
                ContainerChainBlockInfo { block_number, author, latest_slot_number },
            ) && final(self).events@ == old(self).events@.push(Event::LatestAuthorChanged { para_id, block_number, new_author: author, latest_slot_number }),
    {
        match origin {
            Origin::Root => {},
            _ => {
                return Err(DispatchError::BadOrigin);
            },
        }
        self.latest_author.insert(para_id, ContainerChainBlockInfo { block_number, author, latest_slot_number });
        self.events.push(Event::LatestAuthorChanged { para_id, block_number, new_author: author, latest_slot_number });
        Ok(())
    }

    /// Root forgets the latest block noted of `para_id`.
    pub fn kill_author_data(&mut self, origin: Origin, para_id: ParaId) -> (res: Result<(), DispatchError>)
        ensures
            final(self).did_set_container_author_data == old(self).did_set_container_author_data,
            origin != Origin::Root ==> res == Err::<(), DispatchError>(DispatchError::BadOrigin) && final(self).latest_author@ == old(self).latest_author@
                && final(self).events@ == old(self).events@,
            origin == Origin::Root ==> res is Ok && final(self).latest_author@ == old(self).latest_author@.remove(para_id)
                && final(self).events@ == old(self).events@.push(Event::RemovedAuthorData { para_id }),
    {
        match origin {
            Origin::Root => {},
            _ => {
                return Err(DispatchError::BadOrigin);
            },
        }
        self.latest_author.remove(&para_id);
        self.events.push(Event::RemovedAuthorData { para_id });
        Ok(())
    }

    /// The latest block noted of `para_id`, for the rest of the runtime.
    pub fn get_latest_author_info(&self, para_id: ParaId) -> (r: Option<ContainerChainBlockInfo>)
        ensures
            r == (if self.latest_author@.dom().contains(para_id) { Some(self.latest_author@[para_id]) } else { None }),
    {
        self.latest_author(para_id)
    }

    /// The latest block noted of `para_id`, if any.
    pub fn latest_author(&self, para_id: ParaId) -> (r: Option<ContainerChainBlockInfo>)
        ensures
            r == (if self.latest_author@.dom().contains(para_id) { Some(self.latest_author@[para_id]) } else { None }),
    {
        match self.latest_author.get(&para_id) {
            Some(info) => Some(*info),
            None => None,
        }
    }
}

/// The block info a digest item gives does not depend on the Tanssi slot but in its
/// `latest_slot_number`.
proof fn lemma_log_slot(d: DigestItem, para_id: ParaId, number: u32, s1: u64, s2: u64, a: CollatorAssignmentPallet)
    ensures
        log_author(d, para_id, number, s1, a) is Ok <==> log_author(d, para_id, number, s2, a) is Ok,
        log_author(d, para_id, number, s1, a) is Ok ==> log_author(d, para_id, number, s1, a)->Ok_0.block_number
            == log_author(d, para_id, number, s2, a)->Ok_0.block_number,
{
}

/// The same for a header's logs.
proof fn lemma_first_author_slot(logs: Seq<DigestItem>, para_id: ParaId, number: u32, s1: u64, s2: u64, a: CollatorAssignmentPallet)
    ensures
        first_author(logs, para_id, number, s1, a) is Ok <==> first_author(logs, para_id, number, s2, a) is Ok,
        first_author(logs, para_id, number, s1, a) is Ok ==> first_author(logs, para_id, number, s1, a)->Ok_0.block_number
            == first_author(logs, para_id, number, s2, a)->Ok_0.block_number,
    decreases logs.len(),
{
    if logs.len() > 0 {
        lemma_log_slot(logs[0], para_id, number, s1, s2, a);
        lemma_first_author_slot(logs.drop_first(), para_id, number, s1, s2, a);
    }
}

/// Noting never lowers the block number noted for a chain.
pub proof fn noting_never_lowers_block_numbers(
    latest: Map<ParaId, ContainerChainBlockInfo>,
    heads: Map<ParaId, HeadRead>,
    a: CollatorAssignmentPallet,
    tanssi_slot: u64,
    p: ParaId,
)
    ensures
        old_number(latest, p) <= old_number(noted_latest(latest, heads, a, tanssi_slot), p),
{
}

/// Noting again from the same heads, at any slot, notes nothing new.
pub proof fn noting_the_same_heads_again_notes_nothing(
    latest: Map<ParaId, ContainerChainBlockInfo>,
    heads: Map<ParaId, HeadRead>,
    a: CollatorAssignmentPallet,
    s1: u64,
    s2: u64,
    p: ParaId,
)
    ensures
        !noted(noted_latest(latest, heads, a, s1), heads, a, s2, p),
{
    match heads[p] {
        HeadRead::Decoded(header) => {
            lemma_first_author_slot(header.logs@, p, header.number, s1, s2, a);
        },
        _ => {},
    }
}

} // verus!
