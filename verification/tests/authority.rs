use std::collections::BTreeMap;
use tanssi_pallets::assignment::{AccountId, AssignedCollators, ParaId};
use tanssi_pallets::authority::{AuthorityAssignment, AuthorityId, AuthorityMapping};

// ---------------------------------------------------------------- authority mapping

/// Keys are kept for two sessions, as in the runtime used by these tests.
const SESSION_REMOVAL_BOUNDARY: u32 = 2;

#[test]
fn session_0_fills_in_first_mapping() {
    let mut m = AuthorityMapping::new(SESSION_REMOVAL_BOUNDARY);
    m.initializer_on_new_session(0, &[(1, 1)]);

    let v = m.authority_id_mapping(0).unwrap();
    assert_eq!(v.len(), 1);
    assert_eq!(v.get(&1), Some(&1u64));
}

#[test]
fn session_1_fills_in_second_mapping_but_does_not_remove_first() {
    let mut m = AuthorityMapping::new(SESSION_REMOVAL_BOUNDARY);
    m.initializer_on_new_session(0, &[(1, 1)]);
    m.initializer_on_new_session(1, &[(1, 2)]);

    let v0 = m.authority_id_mapping(0).unwrap();
    assert_eq!(v0.len(), 1);
    assert_eq!(v0.get(&1), Some(&1u64));

    let v1 = m.authority_id_mapping(1).unwrap();
    assert_eq!(v1.len(), 1);
    assert_eq!(v1.get(&2), Some(&1u64));
}

#[test]
fn session_2_fills_in_third_mapping_removes_first_not_second() {
    let mut m = AuthorityMapping::new(SESSION_REMOVAL_BOUNDARY);
    m.initializer_on_new_session(0, &[(1, 1)]);
    m.initializer_on_new_session(1, &[(1, 2)]);
    m.initializer_on_new_session(2, &[(1, 3)]);

    assert!(m.authority_id_mapping(0).is_none());

    let v1 = m.authority_id_mapping(1).unwrap();
    assert_eq!(v1.len(), 1);
    assert_eq!(v1.get(&2), Some(&1u64));

    let v2 = m.authority_id_mapping(2).unwrap();
    assert_eq!(v2.len(), 1);
    assert_eq!(v2.get(&3), Some(&1u64));
}

#[test]
fn later_pair_with_same_key_wins() {
    let mut m = AuthorityMapping::new(SESSION_REMOVAL_BOUNDARY);
    m.initializer_on_new_session(4, &[(1, 7), (2, 7), (3, 8)]);
    let v = m.authority_id_mapping(4).unwrap();
    assert_eq!(v.len(), 2);
    assert_eq!(v.get(&7), Some(&2u64));
    assert_eq!(v.get(&8), Some(&3u64));
}

// ---------------------------------------------------------------- authority assignment

/// The authority key of each name used by these tests (the runtime of the tests uses the names
/// themselves as keys).
fn nimbus(name: &str) -> AuthorityId {
    match name {
        "nmbs1-changed" => 101,
        other => other.trim_start_matches("nmbs").parse().unwrap(),
    }
}

/// The runtime's view of the collators: the next assignment and the key of each collator.
struct Runtime {
    pallet: AuthorityAssignment,
    next_collator_assignment: AssignedCollators,
    nimbus_map: BTreeMap<AccountId, AuthorityId>,
    session: Option<u32>,
}

impl Runtime {
    fn new() -> Self {
        Runtime {
            pallet: AuthorityAssignment::new(),
            next_collator_assignment: AssignedCollators {
                orchestrator_chain: vec![1, 2, 3, 4, 5],
                container_chains: BTreeMap::from_iter(vec![(1001, vec![6, 7]), (1002, vec![8, 9])]),
            },
            nimbus_map: (1..=9).map(|id| (id, nimbus(&format!("nmbs{}", id)))).collect(),
            session: None,
        }
    }

    fn run_to_session(&mut self, n: u32) {
        let start = match self.session {
            None => 0,
            Some(s) => s + 1,
        };
        for s in start..=n {
            self.pallet.initializer_on_new_session(s, &self.nimbus_map, &self.next_collator_assignment);
            self.session = Some(s);
        }
    }

    /// Block 1 is the first block of session 0.
    fn run_to_block(&mut self, _n: u32) {
        self.run_to_session(0);
    }

    fn assigned_collators_at_session(&self, session_index: u32) -> Option<BTreeMap<AuthorityId, u32>> {
        let assigned = self.pallet.collator_container_chain.get(&session_index)?;
        let mut h = BTreeMap::new();
        for (para_id, collators) in assigned.container_chains.iter() {
            for collator in collators.iter() {
                h.insert(*collator, *para_id);
            }
        }
        for collator in assigned.orchestrator_chain.iter() {
            h.insert(*collator, 999);
        }
        Some(h)
    }
}

fn expected(entries: Vec<(&str, ParaId)>) -> Option<BTreeMap<AuthorityId, u32>> {
    Some(entries.into_iter().map(|(n, p)| (nimbus(n), p)).collect())
}

fn initial_expected() -> Option<BTreeMap<AuthorityId, u32>> {
    expected(vec![
        ("nmbs1", 999),
        ("nmbs2", 999),
        ("nmbs3", 999),
        ("nmbs4", 999),
        ("nmbs5", 999),
        ("nmbs6", 1001),
        ("nmbs7", 1001),
        ("nmbs8", 1002),
        ("nmbs9", 1002),
    ])
}

#[test]
fn assign_collators_genesis() {
    let mut rt = Runtime::new();
    rt.run_to_block(1);
    let expected_collators = initial_expected();
    assert_eq!(rt.assigned_collators_at_session(0), expected_collators);
    assert_eq!(rt.assigned_collators_at_session(1), expected_collators);
    assert_eq!(rt.assigned_collators_at_session(2), None);
}

#[test]
fn assign_collators_session_one() {
    let mut rt = Runtime::new();
    rt.run_to_block(1);
    let expected_collators = initial_expected();
    assert_eq!(rt.assigned_collators_at_session(0), expected_collators);
    assert_eq!(rt.assigned_collators_at_session(1), expected_collators);
    assert_eq!(rt.assigned_collators_at_session(2), None);

    rt.run_to_session(1);

    assert_eq!(rt.assigned_collators_at_session(0), None);
    assert_eq!(rt.assigned_collators_at_session(1), expected_collators);
    assert_eq!(rt.assigned_collators_at_session(2), expected_collators);
    assert_eq!(rt.assigned_collators_at_session(3), None);
}

#[test]
fn assign_collators_change_nimbus_key() {
    let mut rt = Runtime::new();
    rt.run_to_block(1);
    let expected_collators = initial_expected();
    assert_eq!(rt.assigned_collators_at_session(0), expected_collators);
    assert_eq!(rt.assigned_collators_at_session(1), expected_collators);
    assert_eq!(rt.assigned_collators_at_session(2), None);

    // Change key for collator 1
    rt.nimbus_map.insert(1, nimbus("nmbs1-changed"));
    rt.run_to_session(1);

    let expected_collators_at_2 = expected(vec![
        ("nmbs1-changed", 999),
        ("nmbs2", 999),
        ("nmbs3", 999),
        ("nmbs4", 999),
        ("nmbs5", 999),
        ("nmbs6", 1001),
        ("nmbs7", 1001),
        ("nmbs8", 1002),
        ("nmbs9", 1002),
    ]);
    // Collators in session 2 use the new keys, but collators in session 1 use the old keys
    assert_eq!(rt.assigned_collators_at_session(0), None);
    assert_eq!(rt.assigned_collators_at_session(1), expected_collators);
    assert_eq!(rt.assigned_collators_at_session(2), expected_collators_at_2);
    assert_eq!(rt.assigned_collators_at_session(3), None);
}

#[test]
fn assign_collators_remove_collator() {
    let mut rt = Runtime::new();
    rt.run_to_block(1);
    let expected_collators = initial_expected();
    assert_eq!(rt.assigned_collators_at_session(0), expected_collators);
    assert_eq!(rt.assigned_collators_at_session(1), expected_collators);
    assert_eq!(rt.assigned_collators_at_session(2), None);

    // Remove key for collator 9, and remove collator 9 from the assignment
    rt.nimbus_map.remove(&9);
    let collators_1002 = rt.next_collator_assignment.container_chains.get_mut(&1002).unwrap();
    assert_eq!(collators_1002.pop(), Some(9));

    rt.run_to_session(1);

    let expected_collators_at_2 = expected(vec![
        ("nmbs1", 999),
        ("nmbs2", 999),
        ("nmbs3", 999),
        ("nmbs4", 999),
        ("nmbs5", 999),
        ("nmbs6", 1001),
        ("nmbs7", 1001),
        ("nmbs8", 1002),
    ]);
    assert_eq!(rt.assigned_collators_at_session(0), None);
    assert_eq!(rt.assigned_collators_at_session(1), expected_collators);
    assert_eq!(rt.assigned_collators_at_session(2), expected_collators_at_2);
    assert_eq!(rt.assigned_collators_at_session(3), None);
}

#[test]
fn assign_collators_insert_collator() {
    let mut rt = Runtime::new();
    rt.run_to_block(1);
    let expected_collators = initial_expected();
    assert_eq!(rt.assigned_collators_at_session(0), expected_collators);
    assert_eq!(rt.assigned_collators_at_session(1), expected_collators);
    assert_eq!(rt.assigned_collators_at_session(2), None);

    rt.nimbus_map.insert(10, nimbus("nmbs10"));
    rt.next_collator_assignment.orchestrator_chain.push(10);

    rt.run_to_session(1);

    let expected_collators_at_2 = expected(vec![
        ("nmbs1", 999),
        ("nmbs2", 999),
        ("nmbs3", 999),
        ("nmbs4", 999),
        ("nmbs5", 999),
        ("nmbs6", 1001),
        ("nmbs7", 1001),
        ("nmbs8", 1002),
        ("nmbs9", 1002),
        ("nmbs10", 999),
    ]);
    assert_eq!(rt.assigned_collators_at_session(0), None);
    assert_eq!(rt.assigned_collators_at_session(1), expected_collators);
    assert_eq!(rt.assigned_collators_at_session(2), expected_collators_at_2);
    assert_eq!(rt.assigned_collators_at_session(3), None);
}

#[test]
fn map_assignment_translates_every_collator() {
    let a = AssignedCollators {
        orchestrator_chain: vec![1, 2],
        container_chains: BTreeMap::from_iter(vec![(1001, vec![3])]),
    };
    let keys: BTreeMap<AccountId, AuthorityId> = BTreeMap::from_iter(vec![(1, 11), (2, 12), (3, 13)]);
    let m = tanssi_pallets::authority::map_assignment(&a, &keys);
    assert_eq!(m.orchestrator_chain, vec![11, 12]);
    assert_eq!(m.container_chains, BTreeMap::from_iter(vec![(1001, vec![13])]));
}
