use sp_arithmetic::Perbill;
use std::collections::BTreeMap;
use tanssi_pallets::assignment::{AssignedCollators, ChainNumCollators, ParaId};
use tanssi_pallets::collator_assignment::{
    CollatorAssignmentPallet, CoreAllocationConfiguration, ForSession, RotateCollatorsEveryNSessions,
};

fn create_blank_chain_num_collator(id: u32) -> ChainNumCollators {
    ChainNumCollators { para_id: id, min_collators: 0, max_collators: 0 }
}

fn generate_parachains_and_parathreads(
    num_parachains: u32,
    num_parathreds: u32,
) -> (Vec<ChainNumCollators>, Vec<ChainNumCollators>) {
    let mut parachains = vec![];
    for i in 0..num_parachains {
        parachains.push(create_blank_chain_num_collator(i + 1));
    }
    let mut parathreads = vec![];
    for i in 0..num_parathreds {
        parathreads.push(create_blank_chain_num_collator(num_parachains + i + 1));
    }
    (parachains, parathreads)
}

/// Every chain of `tipping` offers a tip of 1000, as in the runtime used by these tests.
fn tips_of(tipping: &[u32]) -> BTreeMap<ParaId, u128> {
    tipping.iter().map(|p| (*p, 1_000u128)).collect()
}

#[test]
fn test_combine_paras_with_core_config() {
    let core_count = 10u32;
    let num_parachains = 7u32;
    let num_parathreads = 5u32;

    let (generated_parachains, generated_parathreads) =
        generate_parachains_and_parathreads(num_parachains, num_parathreads);

    let c = create_blank_chain_num_collator;
    // (config, tipping_chains, expected_resulting_chains, expected_to_be_sorted_by_tip, num_collators)
    let table = vec![
        (Perbill::from_percent(0), vec![1u32, 2], vec![c(8), c(9), c(10), c(11), c(12)], true, 10u32),
        (Perbill::from_percent(1), vec![5, 8], vec![c(8), c(9), c(10), c(11), c(12)], true, 100),
        (Perbill::from_percent(2), vec![1, 6, 9, 10], vec![c(9), c(10), c(8), c(11), c(12)], true, 10),
        (
            Perbill::from_percent(45),
            vec![],
            vec![c(1), c(2), c(3), c(4), c(8), c(9), c(10), c(11), c(12)],
            true,
            100,
        ),
        (
            Perbill::from_percent(50),
            vec![4, 6, 7, 8, 12],
            vec![c(4), c(6), c(7), c(8), c(12), c(1), c(2), c(9), c(10), c(11)],
            true,
            10,
        ),
        (
            Perbill::from_percent(98),
            vec![1, 12],
            vec![c(1), c(12), c(2), c(3), c(4), c(5), c(6), c(7), c(8), c(9), c(10), c(11)],
            true,
            10,
        ),
        (
            Perbill::from_percent(99),
            vec![1, 12],
            vec![c(1), c(2), c(3), c(4), c(5), c(6), c(7), c(8), c(9), c(10), c(11), c(12)],
            false,
            100,
        ),
        (
            Perbill::from_percent(100),
            vec![10],
            vec![c(10), c(1), c(2), c(3), c(4), c(5), c(6), c(7), c(8), c(9), c(11), c(12)],
            true,
            10,
        ),
    ];

    for (percentage, tipping_chains, result_chains, should_be_ordered_by_tip, number_of_collators) in table {
        let config = CoreAllocationConfiguration {
            core_count,
            max_parachain_percentage: percentage.deconstruct(),
        };
        let tips = tips_of(&tipping_chains);
        let (chains, ordered_by_tip) = CollatorAssignmentPallet::order_paras_with_core_config(
            generated_parachains.clone(),
            generated_parathreads.clone(),
            &config,
            1,
            number_of_collators,
            1,
            1,
            &tips,
        );
        assert_eq!(chains, result_chains);
        assert_eq!(ordered_by_tip, should_be_ordered_by_tip);
    }
}

#[test]
fn order_paras_sorts_by_tip_only_when_collators_are_missing() {
    let bulk = vec![create_blank_chain_num_collator(1), create_blank_chain_num_collator(2)];
    let pool = vec![create_blank_chain_num_collator(3)];
    let tips = tips_of(&[3]);
    // 1 + 2 * 1 + 1 * 1 = 4 collators are needed.
    let (chains, charge) =
        CollatorAssignmentPallet::order_paras(bulk.clone(), pool.clone(), 1, 4, 1, 1, &tips);
    assert!(!charge);
    assert_eq!(chains.iter().map(|c| c.para_id).collect::<Vec<_>>(), vec![1, 2, 3]);
    let (chains, charge) = CollatorAssignmentPallet::order_paras(bulk, pool, 1, 3, 1, 1, &tips);
    assert!(charge);
    assert_eq!(chains.iter().map(|c| c.para_id).collect::<Vec<_>>(), vec![3, 1, 2]);
}

#[test]
fn enough_collators_for_all_chains_saturates() {
    let bulk = vec![create_blank_chain_num_collator(1); 3];
    assert!(CollatorAssignmentPallet::enough_collators_for_all_chains(&bulk, &[], 1, 7, 2, 5));
    assert!(!CollatorAssignmentPallet::enough_collators_for_all_chains(&bulk, &[], 1, 6, 2, 5));
    assert!(!CollatorAssignmentPallet::enough_collators_for_all_chains(&bulk, &[], 1, u32::MAX - 1, u32::MAX, 0));
}

#[test]
fn sort_chains_by_tip_is_stable_for_equal_tips() {
    let chains: Vec<ChainNumCollators> = (1..=5).map(create_blank_chain_num_collator).collect();
    let mut tips = tips_of(&[2, 4]);
    tips.insert(5, 2_000);
    let sorted = tanssi_pallets::collator_assignment::sort_chains_by_tip(chains, &tips);
    assert_eq!(sorted.iter().map(|c| c.para_id).collect::<Vec<_>>(), vec![5, 2, 4, 1, 3]);
}

#[test]
fn rotate_every_n_sessions() {
    assert!(RotateCollatorsEveryNSessions::<5>::should_rotate_all_collators(10));
    assert!(!RotateCollatorsEveryNSessions::<5>::should_rotate_all_collators(11));
    assert!(!RotateCollatorsEveryNSessions::<0>::should_rotate_all_collators(0));
}

fn pallet_with(current: AssignedCollators, pending: Option<AssignedCollators>) -> CollatorAssignmentPallet {
    CollatorAssignmentPallet {
        self_para_id: 999,
        force_empty_orchestrator: false,
        core_allocation_configuration: None,
        collator_container_chain: current,
        pending_collator_container_chain: pending,
        randomness: [0u8; 32],
        collator_fullness_ratio: None,
    }
}

fn assigned(orchestrator: Vec<u64>, chains: Vec<(ParaId, Vec<u64>)>) -> AssignedCollators {
    AssignedCollators { orchestrator_chain: orchestrator, container_chains: chains.into_iter().collect() }
}

#[test]
fn author_for_slot_takes_turns() {
    let p = pallet_with(assigned(vec![1, 2], vec![(1000, vec![3, 4, 5]), (2000, vec![])]), None);
    assert_eq!(p.author_for_slot(0, 999), Some(1));
    assert_eq!(p.author_for_slot(3, 999), Some(2));
    assert_eq!(p.author_for_slot(4, 1000), Some(4));
    assert_eq!(p.author_for_slot(4, 2000), None);
    assert_eq!(p.author_for_slot(4, 3000), None);
}

#[test]
fn pending_assignment_is_read_for_next_session() {
    let current = assigned(vec![1], vec![(1000, vec![2])]);
    let next = assigned(vec![1], vec![(1000, vec![3]), (2000, vec![2])]);
    let p = pallet_with(current, Some(next));
    assert_eq!(p.container_chains_with_collators(ForSession::Current), vec![(1000, vec![2])]);
    assert_eq!(
        p.container_chains_with_collators(ForSession::Next),
        vec![(1000, vec![3]), (2000, vec![2])]
    );
    let all: Vec<u64> = p.get_all_collators_assigned_to_chains(ForSession::Next).into_iter().collect();
    assert_eq!(all, vec![1, 2, 3]);
    assert_eq!(p.read_assigned_collators(), assigned(vec![1], vec![(1000, vec![3]), (2000, vec![2])]));
}

#[test]
fn apply_assignment_rotates_pending() {
    let a = assigned(vec![1], vec![(1000, vec![2])]);
    let b = assigned(vec![1], vec![(1000, vec![3])]);
    let c = assigned(vec![3], vec![(1000, vec![1])]);
    let mut p = pallet_with(a.clone(), Some(b.clone()));
    let out = p.apply_assignment(5, b.clone(), c.clone(), 4, 1);
    assert_eq!(p.collator_container_chain, b);
    assert_eq!(p.pending_collator_container_chain, Some(c.clone()));
    assert_eq!(out.active_assignment, b);
    assert_eq!(out.next_assignment, c);
    // 2 collators out of 4: half of a billion parts.
    assert_eq!(p.collator_fullness_ratio, Some(500_000_000));
    // An unchanged assignment leaves nothing pending.
    let out = p.apply_assignment(6, c.clone(), c.clone(), 0, 1);
    assert_eq!(p.collator_container_chain, c);
    assert_eq!(p.pending_collator_container_chain, None);
    assert_eq!(out.active_assignment, c);
    assert_eq!(p.collator_fullness_ratio, Some(1_000_000_000));
}

#[test]
fn apply_assignment_at_genesis_sets_current() {
    let a = assigned(vec![1, 2], vec![]);
    let mut p = pallet_with(AssignedCollators::default(), None);
    let out = p.apply_assignment(0, AssignedCollators::default(), a.clone(), 10, 0);
    assert_eq!(p.collator_container_chain, a);
    assert_eq!(p.pending_collator_container_chain, Some(a.clone()));
    assert_eq!(out.active_assignment, a);
    assert_eq!(out.next_assignment, a);
}

#[test]
fn take_randomness_leaves_zeros() {
    let mut p = pallet_with(AssignedCollators::default(), None);
    p.prepare_randomness(false, [3u8; 32]);
    assert_eq!(p.randomness, [0u8; 32]);
    p.prepare_randomness(true, [3u8; 32]);
    assert_eq!(p.take_randomness(), [3u8; 32]);
    assert_eq!(p.randomness, [0u8; 32]);
}
