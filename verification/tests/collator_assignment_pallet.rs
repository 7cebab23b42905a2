use std::collections::BTreeMap;
use tanssi_pallets::assignment::{AccountId, AssignedCollators, InvulnerablesFrom, ParaId};
use tanssi_pallets::collator_assignment::{AssignmentInputs, CollatorAssignmentPallet, Event};

/// What the rest of the test runtime tells the pallet; changes apply at once.
#[derive(Clone, Debug)]
struct Mocks {
    max_collators: u32,
    min_orchestrator_chain_collators: u32,
    max_orchestrator_chain_collators: u32,
    collators_per_container: u32,
    collators_per_parathread: u32,
    collators: Vec<u64>,
    container_chains: Vec<u32>,
    parathreads: Vec<u32>,
    random_seed: [u8; 32],
    chains_that_are_tipping: Vec<ParaId>,
    // None means 5
    full_rotation_period: Option<u32>,
    apply_tip: bool,
    assignment_hook_errors: bool,
}

impl Default for Mocks {
    fn default() -> Self {
        Self {
            max_collators: 0,
            min_orchestrator_chain_collators: 1,
            max_orchestrator_chain_collators: 0,
            collators_per_container: 0,
            collators_per_parathread: 0,
            // Initialize collators with 1 collator to avoid error `ZeroCollators` in session 0
            collators: vec![100],
            container_chains: vec![],
            parathreads: vec![],
            random_seed: [0; 32],
            chains_that_are_tipping: vec![1003, 1004],
            full_rotation_period: None,
            apply_tip: false,
            assignment_hook_errors: false,
        }
    }
}

/// The pallet in a test runtime whose sessions last 5 blocks.
struct Chain {
    block: u64,
    pallet: CollatorAssignmentPallet,
    mock: Mocks,
    /// Events of the current block.
    events: Vec<Event>,
}

struct TestExt;

fn new_test_ext() -> TestExt {
    TestExt
}

impl TestExt {
    fn execute_with<F: FnOnce(&mut Chain)>(self, f: F) {
        let mut chain = Chain {
            block: 0,
            pallet: CollatorAssignmentPallet {
                self_para_id: 1000,
                force_empty_orchestrator: false,
                core_allocation_configuration: None,
                collator_container_chain: AssignedCollators::default(),
                pending_collator_container_chain: None,
                randomness: [0; 32],
                collator_fullness_ratio: None,
            },
            mock: Mocks::default(),
            events: vec![],
        };
        f(&mut chain)
    }
}

/// Any ParaId above 5000 is considered to not have enough credits.
fn has_credits(para_id: &ParaId) -> bool {
    *para_id <= 5000
}

impl Chain {
    fn mutate<F: FnOnce(&mut Mocks)>(&mut self, f: F) {
        f(&mut self.mock)
    }

    fn run_to_block(&mut self, n: u64) {
        let session_len = 5;
        for x in (self.block + 1)..=n {
            self.events.clear();
            self.block = x;
            if x % session_len == 1 {
                let session_index = (x / session_len) as u32;
                self.new_session(session_index);
            }
            // The randomness of a new session is read in the block before it.
            let next_block_ends_session = (x + 1) % session_len == 0;
            self.pallet.prepare_randomness(next_block_ends_session, self.mock.random_seed);
        }
    }

    fn new_session(&mut self, session_index: u32) {
        let random_seed = self.pallet.take_randomness();
        let target_session = session_index + 1;
        let period = self.mock.full_rotation_period.unwrap_or(5);
        let full_rotation = period != 0 && target_session % period == 0;
        let mut tips = BTreeMap::new();
        if self.mock.apply_tip {
            for p in &self.mock.chains_that_are_tipping {
                tips.insert(*p, 1_000u128);
            }
        }
        let inputs = AssignmentInputs {
            collators_per_container: self.mock.collators_per_container,
            collators_per_parathread: self.mock.collators_per_parathread,
            min_orchestrator_collators: self.mock.min_orchestrator_chain_collators,
            max_orchestrator_collators: self.mock.max_orchestrator_chain_collators,
            num_registered_parachains: self.mock.container_chains.len(),
            num_registered_parathreads: self.mock.parathreads.len(),
            parachains: self.mock.container_chains.iter().copied().filter(has_credits).collect(),
            parathreads: self.mock.parathreads.iter().copied().filter(has_credits).collect(),
            full_rotation,
            tips,
        };
        let decision = self.pallet.compute_assignment::<InvulnerablesFrom<100>>(
            session_index,
            random_seed,
            self.mock.collators.clone(),
            inputs,
        );
        self.events.push(decision.event);
        let mut new_assigned = decision.new_assigned;
        new_assigned.container_chains.retain(|p, _| has_credits(p));
        if self.mock.assignment_hook_errors {
            // Para 1001 fails its assignment hook.
            new_assigned.container_chains.remove(&1001);
        }
        self.pallet.apply_assignment(
            session_index,
            decision.old_assigned,
            new_assigned,
            self.mock.max_collators,
            decision.num_total_registered_paras,
        );
    }

    fn current(&self) -> AssignedCollators {
        self.pallet.collator_container_chain.clone()
    }

    fn pending(&self) -> Option<AssignedCollators> {
        self.pallet.pending_collator_container_chain.clone()
    }

    /// A map of collator to assigned para id.
    fn assigned_collators(&self) -> BTreeMap<AccountId, u32> {
        let mut h = BTreeMap::new();
        for (para_id, collators) in self.pallet.collator_container_chain.container_chains.iter() {
            for collator in collators.iter() {
                h.insert(*collator, *para_id);
            }
        }
        for collator in &self.pallet.collator_container_chain.orchestrator_chain {
            h.insert(*collator, 1000);
        }
        h
    }

    fn events(&self) -> Vec<Event> {
        self.events.clone()
    }

    fn assert_last_event(&self, event: Event) {
        assert_eq!(self.events.last(), Some(&event));
    }
}

/// The default assignment for session 0 used in tests. Collator 100 is assigned to the orchestrator chain.
fn initial_collators() -> BTreeMap<AccountId, u32> {
    BTreeMap::from_iter(vec![(100, 1000)])
}

/// Runs `f`; the library logs nothing to silence.
fn silence_logs<F: FnOnce() -> R, R>(f: F) -> R {
    f()
}

#[test]
fn assign_initial_collators() {
    new_test_ext().execute_with(|t| {
        t.run_to_block(1);

        t.mutate(|m| {
            m.collators_per_container = 2;
            m.collators_per_parathread = 2;
            m.min_orchestrator_chain_collators = 5;
            m.max_orchestrator_chain_collators = 5;

            m.collators = vec![1, 2, 3, 4, 5, 6, 7, 8, 9, 10];
            m.container_chains = vec![1001, 1002]
        });

        assert_eq!(t.assigned_collators(), initial_collators(),);
        t.run_to_block(6);

        assert_eq!(t.assigned_collators(), initial_collators(),);
        t.run_to_block(11);

        assert_eq!(
            t.assigned_collators(),
            BTreeMap::from_iter(vec![
                (1, 1000),
                (2, 1000),
                (3, 1000),
                (4, 1000),
                (5, 1000),
                (6, 1001),
                (7, 1001),
                (8, 1002),
                (9, 1002),
            ]),
        );
    });
}

#[test]
fn assign_collators_after_one_leaves_container() {
    new_test_ext().execute_with(|t| {
        t.run_to_block(1);

        t.mutate(|m| {
            m.collators_per_container = 2;
            m.collators_per_parathread = 2;
            m.min_orchestrator_chain_collators = 5;
            m.max_orchestrator_chain_collators = 5;

            m.collators = vec![1, 2, 3, 4, 5, 6, 7, 8, 9, 10];
            m.container_chains = vec![1001, 1002]
        });

        assert_eq!(t.assigned_collators(), initial_collators(),);
        t.run_to_block(6);

        assert_eq!(t.assigned_collators(), initial_collators(),);
        t.run_to_block(11);

        assert_eq!(
            t.assigned_collators(),
            BTreeMap::from_iter(vec![
                (1, 1000),
                (2, 1000),
                (3, 1000),
                (4, 1000),
                (5, 1000),
                (6, 1001),
                (7, 1001),
                (8, 1002),
                (9, 1002),
            ]),
        );

        t.mutate(|m| {
            // Remove 6
            m.collators = vec![1, 2, 3, 4, 5, /*6,*/ 7, 8, 9, 10];
        });

        t.run_to_block(16);
        t.run_to_block(21);

        assert_eq!(
            t.assigned_collators(),
            BTreeMap::from_iter(vec![
                (1, 1000),
                (2, 1000),
                (3, 1000),
                (4, 1000),
                (5, 1000),
                //(6, 1001),
                (7, 1001),
                (8, 1002),
                (9, 1002),
                // 10 is assigned in place of 6
                (10, 1001),
            ]),
        );
    });
}

#[test]
fn assign_collators_after_one_leaves_orchestrator_chain() {
    new_test_ext().execute_with(|t| {
        t.run_to_block(1);

        t.mutate(|m| {
            m.collators_per_container = 2;
            m.collators_per_parathread = 2;
            m.min_orchestrator_chain_collators = 5;
            m.max_orchestrator_chain_collators = 5;

            m.collators = vec![1, 2, 3, 4, 5, 6, 7, 8, 9, 10];
            m.container_chains = vec![1001, 1002]
        });

        assert_eq!(t.assigned_collators(), initial_collators(),);
        t.run_to_block(11);

        assert_eq!(
            t.assigned_collators(),
            BTreeMap::from_iter(vec![
                (1, 1000),
                (2, 1000),
                (3, 1000),
                (4, 1000),
                (5, 1000),
                (6, 1001),
                (7, 1001),
                (8, 1002),
                (9, 1002),
            ]),
        );

        t.mutate(|m| {
            // Remove 4
            m.collators = vec![1, 2, 3, /*4,*/ 5, 6, 7, 8, 9, 10];
        });
        t.run_to_block(21);

        assert_eq!(
            t.assigned_collators(),
            BTreeMap::from_iter(vec![
                (1, 1000),
                (2, 1000),
                (3, 1000),
                //(4, 1000),
                (5, 1000),
                (6, 1001),
                (7, 1001),
                (8, 1002),
                (9, 1002),
                // 10 is assigned in place of 4
                (10, 1000),
            ]),
        );
    });
}

#[test]
fn assign_collators_if_config_orchestrator_chain_collators_increases() {
    new_test_ext().execute_with(|t| {
        t.run_to_block(1);

        t.mutate(|m| {
            m.collators_per_container = 2;
            m.collators_per_parathread = 2;
            m.min_orchestrator_chain_collators = 5;
            m.max_orchestrator_chain_collators = 5;

            m.collators = vec![1, 2, 3, 4, 5, 6, 7, 8, 9, 10, 11, 12, 13, 14, 15, 16];
            m.container_chains = vec![1001, 1002]
        });
        assert_eq!(t.assigned_collators(), initial_collators(),);
        t.run_to_block(11);

        assert_eq!(
            t.assigned_collators(),
            BTreeMap::from_iter(vec![
                (1, 1000),
                (2, 1000),
                (3, 1000),
                (4, 1000),
                (5, 1000),
                (6, 1001),
                (7, 1001),
                (8, 1002),
                (9, 1002),
            ]),
        );

        t.mutate(|m| {
            // Add 3 new collators to orchestrator_chain
            m.min_orchestrator_chain_collators = 8;
            m.max_orchestrator_chain_collators = 8;
        });

        t.run_to_block(21);

        assert_eq!(
            t.assigned_collators(),
            BTreeMap::from_iter(vec![
                (1, 1000),
                (2, 1000),
                (3, 1000),
                (4, 1000),
                (5, 1000),
                (6, 1001),
                (7, 1001),
                (8, 1002),
                (9, 1002),
                (10, 1000),
                (11, 1000),
                (12, 1000),
            ]),
        );
    });
}

#[test]
fn assign_collators_if_config_orchestrator_chain_collators_decreases() {
    new_test_ext().execute_with(|t| {
        t.run_to_block(1);

        t.mutate(|m| {
            m.collators_per_container = 2;
            m.collators_per_parathread = 2;
            m.min_orchestrator_chain_collators = 5;
            m.max_orchestrator_chain_collators = 5;

            m.collators = vec![1, 2, 3, 4, 5, 6, 7, 8, 9, 10, 11, 12, 13, 14, 15, 16];
            m.container_chains = vec![1001, 1002]
        });
        assert_eq!(t.assigned_collators(), initial_collators(),);
        t.run_to_block(11);

        assert_eq!(
            t.assigned_collators(),
            BTreeMap::from_iter(vec![
                (1, 1000),
                (2, 1000),
                (3, 1000),
                (4, 1000),
                (5, 1000),
                (6, 1001),
                (7, 1001),
                (8, 1002),
                (9, 1002),
            ]),
        );

        t.mutate(|m| {
            // Remove 3 collators from orchestrator_chain
            m.min_orchestrator_chain_collators = 2;
            m.max_orchestrator_chain_collators = 2;
        });

        t.run_to_block(21);

        // The removed collators are random so no easy way to test the full list
        assert_eq!(t.assigned_collators().len(), 6,);
    });
}

#[test]
fn assign_collators_if_config_collators_per_container_increases() {
    new_test_ext().execute_with(|t| {
        t.run_to_block(1);

        t.mutate(|m| {
            m.collators_per_container = 2;
            m.collators_per_parathread = 2;
            m.min_orchestrator_chain_collators = 5;
            m.max_orchestrator_chain_collators = 5;

            m.collators = vec![1, 2, 3, 4, 5, 6, 7, 8, 9, 10, 11, 12, 13, 14, 15, 16];
            m.container_chains = vec![1001, 1002]
        });

        assert_eq!(t.assigned_collators(), initial_collators(),);
        t.run_to_block(11);

        assert_eq!(
            t.assigned_collators(),
            BTreeMap::from_iter(vec![
                (1, 1000),
                (2, 1000),
                (3, 1000),
                (4, 1000),
                (5, 1000),
                (6, 1001),
                (7, 1001),
                (8, 1002),
                (9, 1002),
            ]),
        );

        t.mutate(|m| {
            // Add 2 new collators to each container_chain
            m.collators_per_container = 4;
        });

        t.run_to_block(21);

        assert_eq!(
            t.assigned_collators(),
            BTreeMap::from_iter(vec![
                (1, 1000),
                (2, 1000),
                (3, 1000),
                (4, 1000),
                (5, 1000),
                (6, 1001),
                (7, 1001),
                (8, 1002),
                (9, 1002),
                (10, 1001),
                (11, 1001),
                (12, 1002),
                (13, 1002),
            ]),
        );
    });
}

#[test]
fn assign_collators_if_container_chain_is_removed() {
    new_test_ext().execute_with(|t| {
        t.run_to_block(1);

        t.mutate(|m| {
            m.collators_per_container = 2;
            m.collators_per_parathread = 2;
            m.min_orchestrator_chain_collators = 5;
            m.max_orchestrator_chain_collators = 5;

            m.collators = vec![1, 2, 3, 4, 5, 6, 7, 8, 9, 10, 11, 12, 13, 14, 15, 16];
            m.container_chains = vec![1001, 1002]
        });
        assert_eq!(t.assigned_collators(), initial_collators(),);
        t.run_to_block(11);

        assert_eq!(
            t.assigned_collators(),
            BTreeMap::from_iter(vec![
                (1, 1000),
                (2, 1000),
                (3, 1000),
                (4, 1000),
                (5, 1000),
                (6, 1001),
                (7, 1001),
                (8, 1002),
                (9, 1002),
            ]),
        );

        t.mutate(|m| {
            // Remove 1 container_chain
            m.container_chains = vec![1001 /*1002*/];
        });

        t.run_to_block(21);

        assert_eq!(
            t.assigned_collators(),
            BTreeMap::from_iter(vec![
                (1, 1000),
                (2, 1000),
                (3, 1000),
                (4, 1000),
                (5, 1000),
                (6, 1001),
                (7, 1001),
            ]),
        );
    });
}

#[test]
fn assign_collators_if_container_chain_is_added() {
    new_test_ext().execute_with(|t| {
        t.run_to_block(1);

        t.mutate(|m| {
            m.collators_per_container = 2;
            m.collators_per_parathread = 2;
            m.min_orchestrator_chain_collators = 5;
            m.max_orchestrator_chain_collators = 5;

            m.collators = vec![1, 2, 3, 4, 5, 6, 7, 8, 9, 10, 11, 12, 13, 14, 15, 16];
            m.container_chains = vec![1001, 1002]
        });
        assert_eq!(t.assigned_collators(), initial_collators(),);
        t.run_to_block(11);

        assert_eq!(
            t.assigned_collators(),
            BTreeMap::from_iter(vec![
                (1, 1000),
                (2, 1000),
                (3, 1000),
                (4, 1000),
                (5, 1000),
                (6, 1001),
                (7, 1001),
                (8, 1002),
                (9, 1002),
            ]),
        );

        t.mutate(|m| {
            // Add 1 new container_chain
            m.container_chains = vec![1001, 1002, 1003];
        });

        t.run_to_block(21);

        assert_eq!(
            t.assigned_collators(),
            BTreeMap::from_iter(vec![
                (1, 1000),
                (2, 1000),
                (3, 1000),
                (4, 1000),
                (5, 1000),
                (6, 1001),
                (7, 1001),
                (8, 1002),
                (9, 1002),
                (10, 1003),
                (11, 1003),
            ]),
        );
    });
}

#[test]
fn assign_collators_after_decrease_num_collators() {
    new_test_ext().execute_with(|t| {
        t.run_to_block(1);

        t.mutate(|m| {
            m.collators_per_container = 2;
            m.collators_per_parathread = 2;
            m.min_orchestrator_chain_collators = 5;
            m.max_orchestrator_chain_collators = 5;

            m.collators = vec![1, 2, 3, 4, 5, 6, 7, 8, 9, 10, 11, 12, 13, 14, 15, 16];
            m.container_chains = vec![1001, 1002]
        });
        assert_eq!(t.assigned_collators(), initial_collators(),);
        t.run_to_block(11);

        let initial_assignment = BTreeMap::from_iter(vec![
            (1, 1000),
            (2, 1000),
            (3, 1000),
            (4, 1000),
            (5, 1000),
            (6, 1001),
            (7, 1001),
            (8, 1002),
            (9, 1002),
        ]);
        assert_eq!(t.assigned_collators(), initial_assignment,);

        t.mutate(|m| {
            m.collators = vec![];
        });

        // Disable logs in this test because it will print:
        //   Error in collator assignment, will keep previous assignment. ZeroCollators
        // But only if this test runs after:
        //   test mock::__construct_runtime_integrity_test::runtime_integrity_tests ... ok
        // Because that test enables logging
        silence_logs(|| {
            t.run_to_block(21);
        });

        // There are no collators but that would brick the chain, so we keep the old assignment
        assert_eq!(t.assigned_collators(), initial_assignment);
    });
}

#[test]
fn assign_collators_stay_constant_if_new_collators_can_take_new_chains() {
    new_test_ext().execute_with(|t| {
        t.run_to_block(1);

        t.mutate(|m| {
            m.collators_per_container = 2;
            m.collators_per_parathread = 2;
            m.min_orchestrator_chain_collators = 2;
            m.max_orchestrator_chain_collators = 5;

            m.collators = vec![1, 2, 3, 4, 5, 6, 7, 8, 9, 10, 11, 12, 13, 14, 15, 16];
            m.container_chains = vec![];
        });
        assert_eq!(t.assigned_collators(), initial_collators(),);
        t.run_to_block(11);

        assert_eq!(
            t.assigned_collators(),
            BTreeMap::from_iter(vec![(1, 1000), (2, 1000), (3, 1000), (4, 1000), (5, 1000),]),
        );

        t.mutate(|m| {
            m.container_chains = vec![1001, 1002];
        });
        t.run_to_block(21);

        assert_eq!(
            t.assigned_collators(),
            BTreeMap::from_iter(vec![
                (1, 1000),
                (2, 1000),
                (3, 1000),
                (4, 1000),
                (5, 1000),
                (6, 1001),
                (7, 1001),
                (8, 1002),
                (9, 1002),
            ]),
        );
    });
}

#[test]
fn assign_collators_move_extra_container_chain_to_orchestrator_chain_if_not_enough_collators() {
    new_test_ext().execute_with(|t| {
        t.run_to_block(1);

        t.mutate(|m| {
            m.collators_per_container = 2;
            m.collators_per_parathread = 2;
            m.min_orchestrator_chain_collators = 2;
            m.max_orchestrator_chain_collators = 5;

            m.collators = vec![1, 2, 3, 4];
            m.container_chains = vec![];
        });
        assert_eq!(t.assigned_collators(), initial_collators(),);
        t.run_to_block(11);

        assert_eq!(
            t.assigned_collators(),
            BTreeMap::from_iter(vec![(1, 1000), (2, 1000), (3, 1000), (4, 1000),]),
        );

        t.mutate(|m| {
            m.collators = vec![1, 2, 3, 4, 5];
            m.container_chains = vec![1001, 1002];
        });
        t.run_to_block(21);

        assert_eq!(
            t.assigned_collators(),
            BTreeMap::from_iter(vec![(1, 1000), (2, 1000), (3, 1000), (4, 1001), (5, 1001),]),
        );
    });
}

#[test]
fn assign_collators_reorganize_container_chains_if_not_enough_collators() {
    new_test_ext().execute_with(|t| {
        t.run_to_block(1);

        t.mutate(|m| {
            m.collators_per_container = 2;
            m.collators_per_parathread = 2;
            m.min_orchestrator_chain_collators = 2;
            m.max_orchestrator_chain_collators = 5;

            m.collators = vec![1, 2, 3, 4, 5, 6, 7, 8, 9, 10, 11, 12];
            m.container_chains = vec![1001, 1002, 1003, 1004, 1005];
        });
        assert_eq!(t.assigned_collators(), initial_collators(),);
        t.run_to_block(11);

        assert_eq!(
            t.assigned_collators(),
            BTreeMap::from_iter(vec![
                (1, 1000),
                (2, 1000),
                (3, 1001),
                (4, 1001),
                (5, 1002),
                (6, 1002),
                (7, 1003),
                (8, 1003),
                (9, 1004),
                (10, 1004),
                (11, 1005),
                (12, 1005)
            ]),
        );

        t.mutate(|m| {
            // Remove collators to leave only 1 per container chain
            m.collators = vec![1, 2, 3, 5, 7, 9, 11];
        });
        t.run_to_block(21);

        // There are 7 collators in total: 2x2 container chains, plus 3 in the orchestrator chain
        assert_eq!(
            t.assigned_collators(),
            BTreeMap::from_iter(vec![
                (1, 1000),
                (2, 1000),
                (3, 1001),
                (5, 1002),
                (7, 1000),
                (9, 1001),
                (11, 1002)
            ]),
        );
    });
}

#[test]
fn assign_collators_set_zero_per_container() {
    new_test_ext().execute_with(|t| {
        t.run_to_block(1);

        t.mutate(|m| {
            m.collators_per_container = 2;
            m.collators_per_parathread = 2;
            m.min_orchestrator_chain_collators = 2;
            m.max_orchestrator_chain_collators = 5;

            m.collators = vec![1, 2, 3, 4, 5, 6, 7, 8, 9, 10, 11, 12];
            m.container_chains = vec![1001, 1002, 1003, 1004];
        });
        assert_eq!(t.assigned_collators(), initial_collators(),);
        t.run_to_block(11);

        assert_eq!(
            t.assigned_collators(),
            BTreeMap::from_iter(vec![
                (1, 1000),
                (2, 1000),
                (3, 1000),
                (4, 1000),
                (5, 1001),
                (6, 1001),
                (7, 1002),
                (8, 1002),
                (9, 1003),
                (10, 1003),
                (11, 1004),
                (12, 1004),
            ]),
        );

        t.mutate(|m| {
            // We don't want to assign collators to container chains anymore
            m.collators_per_container = 0;
        });
        t.run_to_block(21);

        // There are 5 collators in total: 0x4 container chains, plus 5 in the orchestrator chain
        assert_eq!(
            t.assigned_collators(),
            BTreeMap::from_iter(vec![(1, 1000), (2, 1000), (3, 1000), (4, 1000), (5, 1000),]),
        );
    });
}

#[test]
fn assign_collators_rotation() {
    new_test_ext().execute_with(|t| {
        t.run_to_block(1);

        t.mutate(|m| {
            m.collators_per_container = 2;
            m.collators_per_parathread = 2;
            m.min_orchestrator_chain_collators = 2;
            m.max_orchestrator_chain_collators = 5;

            m.collators = vec![1, 2, 3, 4, 5, 6, 7, 8, 9, 10, 11, 12];
            m.container_chains = vec![1001, 1002, 1003, 1004];
        });
        assert_eq!(t.assigned_collators(), initial_collators(),);
        t.run_to_block(11);

        let initial_assignment = BTreeMap::from_iter(vec![
            (1, 1000),
            (2, 1000),
            (3, 1000),
            (4, 1000),
            (5, 1001),
            (6, 1001),
            (7, 1002),
            (8, 1002),
            (9, 1003),
            (10, 1003),
            (11, 1004),
            (12, 1004),
        ]);

        assert_eq!(t.assigned_collators(), initial_assignment,);

        t.mutate(|m| {
            m.random_seed = [1; 32];
        });

        // The rotation period is every 5 sessions, so the first session with a different assignment
        // will be session 5. Collators are calculated one session in advance, so they will be decided
        // on session 4.
        t.run_to_block(20);

        assert_eq!(t.assigned_collators(), initial_assignment,);
        assert_eq!(t.pending(), None,);

        t.run_to_block(21);
        assert_eq!(t.assigned_collators(), initial_assignment,);

        assert!(t.pending().is_some(),);

        t.run_to_block(25);
        assert_eq!(t.assigned_collators(), initial_assignment,);
        t.run_to_block(26);

        // Random assignment depends on the seed, shouldn't change unless the algorithm changes
        let shuffled_assignment = BTreeMap::from_iter(vec![
            (1, 1003),
            (2, 1000),
            (3, 1001),
            (4, 1003),
            (5, 1000),
            (6, 1000),
            (7, 1001),
            (8, 1000),
            (9, 1004),
            (10, 1004),
            (11, 1002),
            (12, 1002),
        ]);

        assert_eq!(t.assigned_collators(), shuffled_assignment);
    });
}

#[test]
fn assign_collators_rotation_container_chains_are_shuffled() {
    new_test_ext().execute_with(|t| {
        t.run_to_block(1);

        t.mutate(|m| {
            m.collators_per_container = 2;
            m.collators_per_parathread = 2;
            m.min_orchestrator_chain_collators = 2;
            m.max_orchestrator_chain_collators = 5;

            // 4 collators so we can only assign to one container chain
            m.collators = vec![1, 2, 3, 4];
            m.container_chains = vec![1001, 1002];
        });
        assert_eq!(t.assigned_collators(), initial_collators(),);
        t.run_to_block(11);

        let initial_assignment =
            BTreeMap::from_iter(vec![(1, 1000), (2, 1000), (3, 1001), (4, 1001)]);

        assert_eq!(t.assigned_collators(), initial_assignment,);

        t.mutate(|m| {
            // Seed chosen manually to see the case where container 1002 is given priority
            m.random_seed = [1; 32];
        });

        t.run_to_block(26);

        // Random assignment depends on the seed, shouldn't change unless the algorithm changes
        // Test that container chains are shuffled because 1001 does not have priority
        let shuffled_assignment =
            BTreeMap::from_iter(vec![(1, 1002), (2, 1000), (3, 1000), (4, 1002)]);

        assert_eq!(t.assigned_collators(), shuffled_assignment,);
    });
}

#[test]
fn assign_collators_rotation_parathreads_are_shuffled() {
    new_test_ext().execute_with(|t| {
        t.run_to_block(1);

        t.mutate(|m| {
            m.collators_per_container = 2;
            m.collators_per_parathread = 2;
            m.min_orchestrator_chain_collators = 2;
            m.max_orchestrator_chain_collators = 5;

            // 4 collators so we can only assign to one parathread
            m.collators = vec![1, 2, 3, 4];
            m.parathreads = vec![3001, 3002];
        });
        assert_eq!(t.assigned_collators(), initial_collators(),);
        t.run_to_block(11);

        let initial_assignment =
            BTreeMap::from_iter(vec![(1, 1000), (2, 1000), (3, 3001), (4, 3001)]);

        assert_eq!(t.assigned_collators(), initial_assignment,);

        t.mutate(|m| {
            // Seed chosen manually to see the case where parathread 3002 is given priority
            m.random_seed = [1; 32];
        });

        t.run_to_block(26);

        // Random assignment depends on the seed, shouldn't change unless the algorithm changes
        // Test that container chains are shuffled because 1001 does not have priority
        let shuffled_assignment =
            BTreeMap::from_iter(vec![(1, 3002), (2, 1000), (3, 1000), (4, 3002)]);

        assert_eq!(t.assigned_collators(), shuffled_assignment,);
    });
}

#[test]
fn assign_collators_rotation_collators_are_shuffled() {
    new_test_ext().execute_with(|t| {
        t.run_to_block(1);

        t.mutate(|m| {
            m.collators_per_container = 2;
            m.collators_per_parathread = 2;
            m.min_orchestrator_chain_collators = 2;
            m.max_orchestrator_chain_collators = 5;

            // 10 collators but we only need 9, so 1 collator will not be assigned
            m.collators = vec![1, 2, 3, 4, 5, 6, 7, 8, 9, 10];
            m.container_chains = vec![1001, 1002];
        });
        assert_eq!(t.assigned_collators(), initial_collators(),);
        t.run_to_block(11);

        let initial_assignment = BTreeMap::from_iter(vec![
            (1, 1000),
            (2, 1000),
            (3, 1000),
            (4, 1000),
            (5, 1000),
            (6, 1001),
            (7, 1001),
            (8, 1002),
            (9, 1002),
        ]);

        assert_eq!(t.assigned_collators(), initial_assignment,);

        t.mutate(|m| {
            m.random_seed = [1; 32];
        });

        t.run_to_block(26);

        // Random assignment depends on the seed, shouldn't change unless the algorithm changes
        // Test that collators are shuffled and the collators of each container chain are not
        // consecutive in order. For example, if collators 8 and 9 are both assigned to chain 1002,
        // change the random seed until they are on different chains.
        // Collator 10 will never be assigned because of the collator priority.
        let shuffled_assignment = BTreeMap::from_iter(vec![
            (1, 1000),
            (2, 1001),
            (3, 1000),
            (4, 1000),
            (5, 1002),
            (6, 1001),
            (7, 1000),
            (8, 1002),
            (9, 1000),
        ]);

        assert_eq!(t.assigned_collators(), shuffled_assignment,);
    });
}

#[test]
fn assign_collators_invulnerables_priority_orchestrator() {
    new_test_ext().execute_with(|t| {
        t.run_to_block(1);

        t.mutate(|m| {
            m.collators_per_container = 2;
            m.collators_per_parathread = 2;
            m.min_orchestrator_chain_collators = 2;
            m.max_orchestrator_chain_collators = 5;

            // 11 collators but we only need 9, so 2 collator will not be assigned
            // id 100 is an invulnerable so it will be assigned to the orchestrator
            m.collators = vec![1, 2, 3, 4, 5, 6, 7, 8, 9, 10, 100];
            m.container_chains = vec![1001, 1002];
        });
        assert_eq!(t.assigned_collators(), initial_collators(),);
        t.run_to_block(11);

        let initial_assignment = BTreeMap::from_iter(vec![
            (100, 1000),
            (1, 1000),
            (2, 1000),
            (3, 1000),
            (4, 1000),
            (5, 1001),
            (6, 1001),
            (7, 1002),
            (8, 1002),
        ]);

        assert_eq!(t.assigned_collators(), initial_assignment,);
    });
}

#[test]
fn assign_collators_invulnerables_priority_orchestrator_reassigned() {
    new_test_ext().execute_with(|t| {
        t.run_to_block(1);

        t.mutate(|m| {
            m.collators_per_container = 2;
            m.collators_per_parathread = 2;
            m.min_orchestrator_chain_collators = 2;
            m.max_orchestrator_chain_collators = 5;
            // Disable rotation because this test is long
            m.full_rotation_period = Some(0);

            // 10 collators but we only need 9, so 1 collator will not be assigned
            // ids >= 100 are invulnerables so 2 of them will always be assigned to the orchestrator
            m.collators = vec![1, 2, 3, 4, 5, 100, 101, 102, 103, 104];
            m.container_chains = vec![1001, 1002];
        });
        assert_eq!(t.assigned_collators(), initial_collators(),);
        t.run_to_block(11);

        let initial_assignment = BTreeMap::from_iter(vec![
            (100, 1000),
            (101, 1000),
            (1, 1000),
            (2, 1000),
            (3, 1000),
            (4, 1001),
            (5, 1001),
            (102, 1002),
            (103, 1002),
        ]);

        assert_eq!(t.assigned_collators(), initial_assignment,);

        t.mutate(|m| {
            // Remove invulnerable from orchestrator, the unassigned invulnerable will take its place
            m.collators = vec![1, 2, 3, 4, 5, 101, 102, 103, 104];
        });

        t.run_to_block(21);

        let assignment = BTreeMap::from_iter(vec![
            (104, 1000),
            (101, 1000),
            (1, 1000),
            (2, 1000),
            (3, 1000),
            (4, 1001),
            (5, 1001),
            (102, 1002),
            (103, 1002),
        ]);

        assert_eq!(t.assigned_collators(), assignment,);

        t.mutate(|m| {
            // Remove another invulnerable from orchestrator, there are no unassigned invulnerables so the ones in a
            // container chain will move from the container chain to the orchestrator
            m.collators = vec![1, 2, 3, 4, 5, 102, 103, 104];
        });

        t.run_to_block(31);

        let assignment = BTreeMap::from_iter(vec![
            (104, 1000),
            (102, 1000),
            (1, 1000),
            (2, 1000),
            (3, 1002),
            (4, 1001),
            (5, 1001),
            (103, 1002),
        ]);

        assert_eq!(t.assigned_collators(), assignment,);
    });
}

#[test]
fn assign_collators_all_invulnerables() {
    new_test_ext().execute_with(|t| {
        t.run_to_block(1);

        t.mutate(|m| {
            m.collators_per_container = 2;
            m.collators_per_parathread = 2;
            m.min_orchestrator_chain_collators = 2;
            m.max_orchestrator_chain_collators = 5;

            // All collators are invulnerables: this results in the same assignment as if there were not invulnerables
            m.collators = vec![101, 102, 103, 104, 105, 106, 107, 108, 109, 110];
            m.container_chains = vec![1001, 1002];
        });
        assert_eq!(t.assigned_collators(), initial_collators(),);
        t.run_to_block(11);

        let initial_assignment = BTreeMap::from_iter(vec![
            (101, 1000),
            (102, 1000),
            (103, 1000),
            (104, 1000),
            (105, 1000),
            (106, 1001),
            (107, 1001),
            (108, 1002),
            (109, 1002),
        ]);

        assert_eq!(t.assigned_collators(), initial_assignment,);
    });
}

#[test]
fn rotation_events() {
    // Ensure that the NewPendingAssignment event is correct
    new_test_ext().execute_with(|t| {
        t.run_to_block(1);

        t.mutate(|m| {
            m.collators_per_container = 2;
            m.collators_per_parathread = 2;
            m.min_orchestrator_chain_collators = 2;
            m.max_orchestrator_chain_collators = 5;

            m.collators = vec![1, 2, 3, 4, 5, 6, 7, 8, 9, 10, 11, 12];
            m.container_chains = vec![1001, 1002, 1003, 1004];
        });
        assert_eq!(t.assigned_collators(), initial_collators(),);

        // Block 1 should emit event, random seed was not set
        t.assert_last_event(
            Event::NewPendingAssignment {
                random_seed: [0; 32],
                full_rotation: false,
                target_session: 1,
            }
            .into(),
        );

        for i in 2..=11 {
            t.run_to_block(i);
            match i {
                6 | 11 => {
                    t.assert_last_event(
                        Event::NewPendingAssignment {
                            random_seed: [0; 32],
                            full_rotation: false,
                            target_session: (i / 5) as u32 + 1,
                        }
                        .into(),
                    );
                }
                _ => {
                    assert_eq!(
                        t.events(),
                        vec![],
                        "Block #{} should not have any events",
                        i
                    );
                }
            }
        }

        t.mutate(|m| {
            m.random_seed = [1; 32];
        });

        // The rotation period is every 5 sessions, so the first session with a different assignment
        // will be session 5. Collators are calculated one session in advance, so they will be decided
        // on session 4, which starts on block 21.
        for i in 12..=51 {
            t.run_to_block(i);
            match i {
                16 | 26 | 31 | 36 | 41 | 51 => {
                    t.assert_last_event(
                        Event::NewPendingAssignment {
                            random_seed: [1; 32],
                            full_rotation: false,
                            target_session: (i / 5) as u32 + 1,
                        }
                        .into(),
                    );
                }
                21 | 46 => {
                    t.assert_last_event(
                        Event::NewPendingAssignment {
                            random_seed: [1; 32],
                            full_rotation: true,
                            target_session: (i / 5) as u32 + 1,
                        }
                        .into(),
                    );
                }
                _ => {
                    assert_eq!(
                        t.events(),
                        vec![],
                        "Block #{} should not have any events",
                        i
                    );
                }
            }
        }
    });
}

#[test]
fn assign_collators_remove_from_orchestator_when_all_assigned() {
    new_test_ext().execute_with(|t| {
        t.run_to_block(1);

        t.mutate(|m| {
            m.collators_per_container = 2;
            m.collators_per_parathread = 2;
            m.min_orchestrator_chain_collators = 2;
            m.max_orchestrator_chain_collators = 2;

            m.collators = vec![1, 2];
            m.container_chains = vec![1001];
        });
        assert_eq!(t.assigned_collators(), initial_collators(),);
        t.run_to_block(11);

        let initial_assignment = BTreeMap::from_iter(vec![(1, 1000), (2, 1000)]);

        assert_eq!(t.assigned_collators(), initial_assignment,);

        t.mutate(|m| {
            m.collators = vec![1, 2, 3, 4];
        });

        t.run_to_block(26);

        let assignment = BTreeMap::from_iter(vec![(1, 1000), (2, 1000), (3, 1001), (4, 1001)]);
        assert_eq!(t.assigned_collators(), assignment,);

        t.mutate(|m| {
            m.collators = vec![1, 3, 4];
        });

        t.run_to_block(36);

        let assignment = BTreeMap::from_iter(vec![(1, 1000), (3, 1000)]);

        assert_eq!(t.assigned_collators(), assignment,);

        t.mutate(|m| {
            m.collators = vec![3, 4];
        });

        t.run_to_block(46);

        let assignment = BTreeMap::from_iter(vec![(3, 1000), (4, 1000)]);

        assert_eq!(t.assigned_collators(), assignment,);
    });
}

#[test]
fn collator_assignment_includes_empty_chains() {
    new_test_ext().execute_with(|t| {
        t.run_to_block(1);

        t.mutate(|m| {
            m.collators_per_container = 2;
            m.collators_per_parathread = 2;
            m.min_orchestrator_chain_collators = 2;
            m.max_orchestrator_chain_collators = 2;

            m.collators = vec![1, 2];
            m.container_chains = vec![2000, 2001, 2002];
            m.parathreads = vec![3000, 3001, 3002]
        });
        assert_eq!(t.assigned_collators(), initial_collators(),);
        t.run_to_block(11);

        let assigned_collators = t.current();
        let expected = AssignedCollators {
            orchestrator_chain: vec![1, 2],
            container_chains: BTreeMap::from_iter(vec![
                (2000u32, vec![]),
                (2001u32, vec![]),
                (2002u32, vec![]),
                (3000u32, vec![]),
                (3001u32, vec![]),
                (3002u32, vec![]),
            ]),
        };
        assert_eq!(assigned_collators, expected);
    });
}

#[test]
fn collator_assignment_remove_parachains_without_credits() {
    new_test_ext().execute_with(|t| {
        t.run_to_block(1);

        t.mutate(|m| {
            m.collators_per_container = 2;
            m.collators_per_parathread = 2;
            m.min_orchestrator_chain_collators = 2;
            m.max_orchestrator_chain_collators = 5;

            m.collators = vec![1, 2, 3, 4, 5, 6, 7];
            m.container_chains = vec![2000, 5001, 5002];
            m.parathreads = vec![]
        });
        assert_eq!(t.assigned_collators(), initial_collators(),);
        t.run_to_block(11);

        let assigned_collators = t.current();
        let expected = AssignedCollators {
            orchestrator_chain: vec![1, 2, 3, 4, 5],
            container_chains: BTreeMap::from_iter(vec![(2000u32, vec![6, 7])]),
        };
        assert_eq!(assigned_collators, expected);
    });
}

#[test]
fn collator_assignment_remove_parathreads_without_credits() {
    new_test_ext().execute_with(|t| {
        t.run_to_block(1);

        t.mutate(|m| {
            m.collators_per_container = 2;
            m.collators_per_parathread = 2;
            m.min_orchestrator_chain_collators = 2;
            m.max_orchestrator_chain_collators = 5;

            m.collators = vec![1, 2, 3, 4, 5, 6, 7];
            m.container_chains = vec![];
            m.parathreads = vec![3000, 5001, 5002]
        });
        assert_eq!(t.assigned_collators(), initial_collators(),);
        t.run_to_block(11);

        let assigned_collators = t.current();
        let expected = AssignedCollators {
            orchestrator_chain: vec![1, 2, 3, 4, 5],
            container_chains: BTreeMap::from_iter(vec![(3000u32, vec![6, 7])]),
        };
        assert_eq!(assigned_collators, expected);
    });
}

#[test]
fn assign_collators_prioritizing_tip() {
    new_test_ext().execute_with(|t| {
        t.run_to_block(1);

        t.mutate(|m| {
            m.collators_per_container = 2;
            m.collators_per_parathread = 2;
            m.min_orchestrator_chain_collators = 5;
            m.max_orchestrator_chain_collators = 5;

            m.collators = vec![1, 2, 3, 4, 5, 6, 7, 8, 9];
            m.container_chains = vec![1001, 1002, 1003, 1004];
            m.apply_tip = false
        });

        t.run_to_block(11);

        assert_eq!(
            t.assigned_collators(),
            BTreeMap::from_iter(vec![
                (1, 1000),
                (2, 1000),
                (3, 1000),
                (4, 1000),
                (5, 1000),
                (6, 1001),
                (7, 1001),
                (8, 1002),
                (9, 1002),
            ])
        );

        // Enable tip for 1003 and 1004
        t.mutate(|m| m.apply_tip = true);

        t.run_to_block(21);

        assert_eq!(
            t.assigned_collators(),
            BTreeMap::from_iter(vec![
                (1, 1000),
                (2, 1000),
                (3, 1000),
                (4, 1000),
                (5, 1000),
                (6, 1003),
                (7, 1003),
                (8, 1004),
                (9, 1004),
            ]),
        );
    });
}

#[test]
fn on_collators_assigned_hook_failure_removes_para_from_assignment() {
    new_test_ext().execute_with(|t| {
        t.run_to_block(1);

        t.mutate(|m| {
            m.collators_per_container = 2;
            m.collators_per_parathread = 2;
            m.min_orchestrator_chain_collators = 5;
            m.max_orchestrator_chain_collators = 5;

            m.collators = vec![1, 2, 3, 4, 5, 6, 7, 8, 9, 10, 11];
            m.container_chains = vec![1001, 1002, 1003, 1004];
            m.assignment_hook_errors = false;
        });
        t.run_to_block(11);

        assert_eq!(
            t.assigned_collators(),
            BTreeMap::from_iter(vec![
                (1, 1000),
                (2, 1000),
                (3, 1000),
                (4, 1000),
                (5, 1000),
                (6, 1001),
                (7, 1001),
                (8, 1002),
                (9, 1002),
                (10, 1003),
                (11, 1003),
            ]),
        );

        // Para 1001 will fail on_assignment_hook
        t.mutate(|m| {
            m.assignment_hook_errors = true;
        });

        t.run_to_block(21);

        assert_eq!(
            t.assigned_collators(),
            BTreeMap::from_iter(vec![
                (1, 1000),
                (2, 1000),
                (3, 1000),
                (4, 1000),
                (5, 1000),
                (8, 1002),
                (9, 1002),
                (10, 1003),
                (11, 1003),
            ]),
        );
    });
}

#[test]
fn assign_collators_truncates_before_shuffling() {
    // Check that if there are more collators than needed, we only assign the first collators
    new_test_ext().execute_with(|t| {
        t.run_to_block(1);

        t.mutate(|m| {
            // Need 5 collators in total, 3 for orchestrator and 2 for 1 container chain
            m.collators_per_container = 2;
            m.min_orchestrator_chain_collators = 3;
            m.max_orchestrator_chain_collators = 3;

            // Have 10 collators in total, but only the first 5 will be assigned, in random order
            m.collators = vec![1, 2, 3, 4, 5, 6, 7, 8, 9, 10];
            m.container_chains = vec![1001];
            m.random_seed = [1; 32];
        });

        t.run_to_block(11);

        assert_eq!(
            t.assigned_collators(),
            BTreeMap::from_iter(vec![(1, 1001), (2, 1000), (3, 1000), (4, 1001), (5, 1000),])
        );
    });
}
