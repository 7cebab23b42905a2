use std::collections::BTreeMap;
use tanssi_pallets::assignment::{AccountId, AssignedCollators, ParaId};
use tanssi_pallets::author_noting::{
    author_from_log, fetch_block_info_from_proof, AuthorNotingInfo, ContainerChainBlockInfo, DigestItem, DispatchError,
    Error, Event, HeadRead, Header, Pallet, AURA_ENGINE_ID,
};
use tanssi_pallets::collator_assignment::CollatorAssignmentPallet;
use tanssi_pallets::origin::Origin;

/// The collators of a chain: account `i` authors the slots equal to `i` modulo their number,
/// so that the author of a small slot is the account of the same number.
fn collators() -> Vec<AccountId> {
    (0..100).collect()
}

/// The collator assignment of the test runtime, with these container chains.
fn assignment(chains: &[ParaId]) -> CollatorAssignmentPallet {
    CollatorAssignmentPallet {
        self_para_id: 100,
        force_empty_orchestrator: false,
        core_allocation_configuration: None,
        collator_container_chain: AssignedCollators {
            orchestrator_chain: vec![],
            container_chains: chains.iter().map(|p| (*p, collators())).collect(),
        },
        pending_collator_container_chain: None,
        randomness: [0u8; 32],
        collator_fullness_ratio: None,
    }
}

/// The SCALE encoding of a slot.
fn encode_slot(slot: u64) -> Vec<u8> {
    slot.to_le_bytes().to_vec()
}

fn header(number: u32, logs: Vec<DigestItem>) -> HeadRead {
    HeadRead::Decoded(Header { number, logs })
}

fn aura_header(number: u32, slot: u64) -> HeadRead {
    header(number, vec![DigestItem::PreRuntime(AURA_ENGINE_ID, encode_slot(slot))])
}

/// Runs block `n` (whose Tanssi slot is `n`): the hook, then the inherent that notes the
/// authors from `heads`.
fn run_block(pallet: &mut Pallet, n: u64, heads: BTreeMap<ParaId, HeadRead>, chains: &[ParaId]) -> Vec<AuthorNotingInfo> {
    pallet.on_initialize();
    let infos = pallet.set_latest_author_data(Origin::Unsigned, &heads, &assignment(chains), n).unwrap();
    pallet.on_finalize();
    infos.unwrap_or_default()
}

#[test]
fn tests_test_author_id_insertion() {
    let mut pallet = Pallet::new();
    run_block(&mut pallet, 1, BTreeMap::from([(1001, aura_header(1, 13))]), &[1001]);
    assert_eq!(
        pallet.latest_author(1001),
        Some(ContainerChainBlockInfo { block_number: 1, author: 13u64, latest_slot_number: 1u64 })
    );
}

#[test]
fn tests_test_author_id_insertion_many_paras() {
    let mut pallet = Pallet::new();
    run_block(&mut pallet, 1, BTreeMap::from([(1001, aura_header(1, 10))]), &[1001]);
    assert_eq!(
        pallet.latest_author(1001),
        Some(ContainerChainBlockInfo { block_number: 1, author: 10u64, latest_slot_number: 1u64 })
    );
    assert_eq!(pallet.latest_author(1002), None);
    run_block(&mut pallet, 2, BTreeMap::from([(1001, aura_header(2, 13)), (1002, aura_header(1, 14))]), &[1001, 1002]);
    assert_eq!(
        pallet.latest_author(1001),
        Some(ContainerChainBlockInfo { block_number: 2, author: 13u64, latest_slot_number: 2u64 })
    );
    assert_eq!(
        pallet.latest_author(1002),
        Some(ContainerChainBlockInfo { block_number: 1, author: 14u64, latest_slot_number: 2u64 })
    );
}

#[test]
fn test_set_author() {
    let mut pallet = Pallet::new();
    run_block(&mut pallet, 1, BTreeMap::from([(1001, aura_header(1, 13))]), &[1001]);
    assert_eq!(
        pallet.latest_author(1001),
        Some(ContainerChainBlockInfo { block_number: 1, author: 13u64, latest_slot_number: 1u64 })
    );
    assert_eq!(pallet.set_author(Origin::Root, 1001, 1, 14u64, 14u64), Ok(()));
    assert_eq!(
        pallet.latest_author(1001),
        Some(ContainerChainBlockInfo { block_number: 1, author: 14u64, latest_slot_number: 14u64 })
    );
    assert_eq!(
        pallet.events.last(),
        Some(&Event::LatestAuthorChanged { para_id: 1001, block_number: 1, new_author: 14u64, latest_slot_number: 14u64 })
    );
}

#[test]
fn test_header_non_decodable_does_not_insert() {
    let mut pallet = Pallet::new();
    run_block(&mut pallet, 1, BTreeMap::from([(1001, HeadRead::Undecodable)]), &[1001]);
    assert_eq!(pallet.latest_author(1001), None);
}

#[test]
fn test_non_aura_digest_does_not_insert_key() {
    let mut pallet = Pallet::new();
    let head = header(0, vec![DigestItem::PreRuntime([b'a', b'a', b'a', b'a'], encode_slot(13))]);
    run_block(&mut pallet, 1, BTreeMap::from([(1001, head)]), &[1001]);
    assert_eq!(pallet.latest_author(1001), None);
}

#[test]
fn test_non_decodable_slot_does_not_insert_key() {
    let mut pallet = Pallet::new();
    // A one-byte slot does not decode as a slot.
    let head = header(0, vec![DigestItem::PreRuntime(AURA_ENGINE_ID, vec![1u8])]);
    run_block(&mut pallet, 1, BTreeMap::from([(1001, head)]), &[1001]);
    assert_eq!(pallet.latest_author(1001), None);
}

#[test]
fn test_kill_author_data() {
    let mut pallet = Pallet::new();
    run_block(&mut pallet, 1, BTreeMap::from([(1001, aura_header(1, 13))]), &[1001]);
    assert_eq!(
        pallet.latest_author(1001),
        Some(ContainerChainBlockInfo { block_number: 1, author: 13u64, latest_slot_number: 1u64 })
    );
    assert_eq!(pallet.kill_author_data(Origin::Root, 1001), Ok(()));
    assert_eq!(pallet.latest_author(1001), None);
    assert_eq!(pallet.events.last(), Some(&Event::RemovedAuthorData { para_id: 1001 }));
}

#[test]
fn test_author_id_insertion_not_first_log() {
    let mut pallet = Pallet::new();
    let head = header(
        1,
        vec![
            // Dummy item before aura log
            DigestItem::PreRuntime([0; 4], vec![]),
            DigestItem::PreRuntime(AURA_ENGINE_ID, encode_slot(13)),
        ],
    );
    run_block(&mut pallet, 1, BTreeMap::from([(1001, head)]), &[1001]);
    assert_eq!(
        pallet.latest_author(1001),
        Some(ContainerChainBlockInfo { block_number: 1, author: 13u64, latest_slot_number: 1u64 })
    );
}

// Scenarios of our own.

#[test]
fn only_newer_blocks_are_noted_and_reported() {
    let mut pallet = Pallet::new();
    let infos = run_block(&mut pallet, 1, BTreeMap::from([(1001, aura_header(5, 13)), (1002, aura_header(1, 14))]), &[1001, 1002]);
    assert_eq!(
        infos,
        vec![
            AuthorNotingInfo { author: 13, block_number: 5, para_id: 1001 },
            AuthorNotingInfo { author: 14, block_number: 1, para_id: 1002 },
        ]
    );
    let infos = run_block(&mut pallet, 2, BTreeMap::from([(1001, aura_header(5, 20)), (1002, aura_header(2, 15))]), &[1001, 1002]);
    assert_eq!(infos, vec![AuthorNotingInfo { author: 15, block_number: 2, para_id: 1002 }]);
    assert_eq!(
        pallet.latest_author(1001),
        Some(ContainerChainBlockInfo { block_number: 5, author: 13, latest_slot_number: 1 })
    );
}

#[test]
fn chains_without_collators_are_not_read() {
    let mut pallet = Pallet::new();
    let mut a = assignment(&[1001]);
    a.collator_container_chain.container_chains.insert(1002, vec![]);
    pallet.on_initialize();
    // Nothing is read for 1002, which has no collators.
    let infos = pallet
        .set_latest_author_data(Origin::Unsigned, &BTreeMap::from([(1001, aura_header(1, 3))]), &a, 7)
        .unwrap();
    assert_eq!(infos, Some(vec![AuthorNotingInfo { author: 3, block_number: 1, para_id: 1001 }]));
    assert!(pallet.did_set_container_author_data);
}

#[test]
fn the_rewards_hook_is_not_called_without_chains_with_collators() {
    let mut pallet = Pallet::new();
    let mut a = assignment(&[]);
    a.collator_container_chain.container_chains.insert(1002, vec![]);
    pallet.on_initialize();
    let res = pallet.set_latest_author_data(Origin::Unsigned, &BTreeMap::new(), &a, 7);
    assert_eq!(res, Ok(None));
    assert!(pallet.did_set_container_author_data);
    // With a chain that has collators but no newer block, the hook is called with nothing.
    let mut pallet = Pallet::new();
    pallet.on_initialize();
    let res = pallet.set_latest_author_data(Origin::Unsigned, &BTreeMap::from([(1001, HeadRead::ReadFailed)]), &assignment(&[1001]), 7);
    assert_eq!(res, Ok(Some(vec![])));
}

#[test]
fn the_slot_picks_the_collator_in_turn() {
    let mut a = assignment(&[]);
    a.collator_container_chain.container_chains.insert(1001, vec![7, 8, 9]);
    let log = DigestItem::PreRuntime(AURA_ENGINE_ID, encode_slot(4));
    assert_eq!(
        author_from_log(&log, 1001, 3, 11, &a),
        Ok(ContainerChainBlockInfo { block_number: 3, author: 8, latest_slot_number: 11 })
    );
    // Bytes after the slot are not read.
    let mut data = encode_slot(0x0102_0304_0506_0708);
    data.push(0xff);
    let long = DigestItem::PreRuntime(AURA_ENGINE_ID, data);
    assert_eq!(author_from_log(&long, 1001, 3, 11, &a).map(|i| i.author), Ok(vec![7u64, 8, 9][(0x0102_0304_0506_0708u64 % 3) as usize]));
    assert_eq!(author_from_log(&log, 1002, 3, 11, &a), Err(Error::AuthorNotFound));
    assert_eq!(author_from_log(&DigestItem::Other(vec![]), 1001, 3, 11, &a), Err(Error::AsPreRuntimeError));
}

#[test]
fn the_first_error_is_reported_when_no_log_gives_an_author() {
    let a = assignment(&[1001]);
    let head = header(1, vec![DigestItem::Seal(AURA_ENGINE_ID, vec![]), DigestItem::PreRuntime([0; 4], vec![])]);
    assert_eq!(fetch_block_info_from_proof(&head, 1001, 1, &a), Err(Error::AsPreRuntimeError));
    assert_eq!(fetch_block_info_from_proof(&header(1, vec![]), 1001, 1, &a), Err(Error::AuraDigestFirstItem));
    assert_eq!(fetch_block_info_from_proof(&HeadRead::ReadFailed, 1001, 1, &a), Err(Error::FailedReading));
}

#[test]
fn only_root_sets_and_only_an_inherent_notes() {
    let mut pallet = Pallet::new();
    assert_eq!(pallet.set_author(Origin::Signed(1), 1001, 1, 2, 3), Err(DispatchError::BadOrigin));
    assert_eq!(pallet.kill_author_data(Origin::Unsigned, 1001), Err(DispatchError::BadOrigin));
    let res = pallet.set_latest_author_data(Origin::Root, &BTreeMap::new(), &assignment(&[]), 1);
    assert_eq!(res, Err(DispatchError::BadOrigin));
    assert!(!pallet.did_set_container_author_data);
}
