use tanssi_pallets::configuration::{Configuration, Error, HostConfiguration, InconsistentError};
use tanssi_pallets::origin::Origin;

/// Sessions last 5 blocks and changes wait 2 sessions, as in the runtime used by these tests.
const BLOCKS_PER_SESSION: u32 = 5;
const SESSION_DELAY: u32 = 2;

/// A chain driving the pallet block by block: block `b` belongs to session `(b - 1) / 5`, and the
/// first block of each session hands the session change to the pallet.
struct Chain {
    pallet: Configuration,
    block: u32,
}

impl Chain {
    fn new(pallet: Configuration) -> Self {
        Chain { pallet, block: 0 }
    }

    fn session(&self) -> u32 {
        if self.block == 0 { 0 } else { (self.block - 1) / BLOCKS_PER_SESSION }
    }

    fn run_to_block(&mut self, n: u32) {
        while self.block < n {
            self.block += 1;
            if self.block > 1 && (self.block - 1) % BLOCKS_PER_SESSION == 0 {
                let s = self.session();
                self.pallet.initializer_on_new_session(s);
            }
        }
    }
}

/// A configuration with the four parameters these tests look at; the others are zero.
fn config4(max: u32, min_orch: u32, max_orch: u32, per_container: u32) -> HostConfiguration {
    HostConfiguration {
        max_collators: max,
        min_orchestrator_collators: min_orch,
        max_orchestrator_collators: max_orch,
        collators_per_container: per_container,
        full_rotation_period: 0,
        collators_per_parathread: 0,
        parathreads_per_collator: 0,
        target_container_chain_fullness: 0,
    }
}

/// The pallet as its genesis leaves it, without the consistency check of `Configuration::new`
/// (the all-zero configurations below are not consistent).
fn genesis(config: HostConfiguration) -> Chain {
    Chain::new(Configuration {
        session_delay: SESSION_DELAY,
        active_config: config,
        pending_configs: vec![],
        bypass_consistency_check: false,
    })
}

#[test]
fn config_sets_values_from_genesis() {
    let custom_config = HostConfiguration {
        max_collators: 100,
        min_orchestrator_collators: 40,
        max_orchestrator_collators: 40,
        collators_per_container: 20,
        ..HostConfiguration::default()
    };
    let mut chain = Chain::new(Configuration::new(SESSION_DELAY, custom_config));
    chain.run_to_block(1);
    assert_eq!(chain.pallet.config(), custom_config);
}

#[test]
fn config_sets_default_values() {
    let default_config = HostConfiguration::default();
    assert_eq!(default_config.max_collators, 100);
    assert_eq!(default_config.min_orchestrator_collators, 2);
    assert_eq!(default_config.max_orchestrator_collators, 5);
    assert_eq!(default_config.collators_per_container, 2);
    let mut chain = Chain::new(Configuration::new(SESSION_DELAY, HostConfiguration::default()));
    chain.run_to_block(1);
    assert_eq!(chain.pallet.config(), default_config);
}

#[test]
fn config_set_value() {
    let mut chain = genesis(config4(0, 0, 0, 0));
    chain.run_to_block(1);
    assert_eq!(chain.pallet.config().max_collators, 0);
    let s = chain.session();
    assert_eq!(chain.pallet.set_max_collators(Origin::Root, s, 50), Ok(()));
    assert_eq!(chain.pallet.pending_configs(), vec![(2, config4(50, 0, 0, 0))]);

    // The session delay is 2 and one session is 5 blocks: the change happens at block 11.
    assert_eq!(chain.pallet.config().max_collators, 0);
    chain.run_to_block(2);
    assert_eq!(chain.pallet.config().max_collators, 0);
    // First block of session 1
    chain.run_to_block(6);
    assert_eq!(chain.pallet.config().max_collators, 0);
    chain.run_to_block(10);
    assert_eq!(chain.pallet.config().max_collators, 0);
    // First block of session 2
    chain.run_to_block(11);
    assert_eq!(chain.pallet.config().max_collators, 50);
}

#[test]
fn config_set_many_values_same_block() {
    let mut chain = genesis(config4(0, 0, 0, 0));
    chain.run_to_block(1);
    assert_eq!(chain.pallet.config().max_collators, 0);
    assert_eq!(chain.pallet.config().collators_per_container, 0);
    assert_eq!(chain.pallet.config().min_orchestrator_collators, 0);
    let s = chain.session();
    assert_eq!(chain.pallet.set_max_collators(Origin::Root, s, 50), Ok(()));
    assert_eq!(chain.pallet.set_min_orchestrator_collators(Origin::Root, s, 20), Ok(()));
    assert_eq!(chain.pallet.set_collators_per_container(Origin::Root, s, 10), Ok(()));

    assert_eq!(chain.pallet.pending_configs(), vec![(2, config4(50, 20, 20, 10))]);

    chain.run_to_block(10);
    assert_eq!(chain.pallet.config().max_collators, 0);
    assert_eq!(chain.pallet.config().collators_per_container, 0);
    assert_eq!(chain.pallet.config().min_orchestrator_collators, 0);
    // First block of session 2
    chain.run_to_block(11);
    assert_eq!(chain.pallet.config().max_collators, 50);
    assert_eq!(chain.pallet.config().collators_per_container, 10);
    assert_eq!(chain.pallet.config().min_orchestrator_collators, 20);
}

#[test]
fn config_set_many_values_different_blocks() {
    let mut chain = genesis(config4(0, 0, 0, 0));
    chain.run_to_block(1);
    assert_eq!(chain.pallet.config().max_collators, 0);
    assert_eq!(chain.pallet.config().collators_per_container, 0);
    assert_eq!(chain.pallet.config().min_orchestrator_collators, 0);
    let s = chain.session();
    assert_eq!(chain.pallet.set_max_collators(Origin::Root, s, 50), Ok(()));
    chain.run_to_block(2);
    let s = chain.session();
    assert_eq!(chain.pallet.set_min_orchestrator_collators(Origin::Root, s, 20), Ok(()));
    chain.run_to_block(3);
    let s = chain.session();
    assert_eq!(chain.pallet.set_collators_per_container(Origin::Root, s, 10), Ok(()));

    assert_eq!(chain.pallet.pending_configs(), vec![(2, config4(50, 20, 20, 10))]);

    chain.run_to_block(10);
    assert_eq!(chain.pallet.config().max_collators, 0);
    assert_eq!(chain.pallet.config().min_orchestrator_collators, 0);
    assert_eq!(chain.pallet.config().collators_per_container, 0);
    // First block of session 2
    chain.run_to_block(11);
    assert_eq!(chain.pallet.config().max_collators, 50);
    assert_eq!(chain.pallet.config().min_orchestrator_collators, 20);
    assert_eq!(chain.pallet.config().collators_per_container, 10);
}

#[test]
fn config_set_many_values_different_sessions() {
    let mut chain = genesis(config4(0, 0, 0, 0));
    chain.run_to_block(1);
    assert_eq!(chain.pallet.config().max_collators, 0);
    assert_eq!(chain.pallet.config().min_orchestrator_collators, 0);
    assert_eq!(chain.pallet.config().collators_per_container, 0);
    let s = chain.session();
    assert_eq!(chain.pallet.set_max_collators(Origin::Root, s, 50), Ok(()));
    chain.run_to_block(6);
    let s = chain.session();
    assert_eq!(chain.pallet.set_min_orchestrator_collators(Origin::Root, s, 20), Ok(()));
    assert_eq!(chain.pallet.config().max_collators, 0);
    assert_eq!(chain.pallet.config().min_orchestrator_collators, 0);
    assert_eq!(chain.pallet.config().collators_per_container, 0);
    chain.run_to_block(11);
    let s = chain.session();
    assert_eq!(chain.pallet.set_collators_per_container(Origin::Root, s, 10), Ok(()));

    assert_eq!(
        chain.pallet.pending_configs(),
        vec![(3, config4(50, 20, 20, 0)), (4, config4(50, 20, 20, 10))]
    );

    assert_eq!(chain.pallet.config().max_collators, 50);
    assert_eq!(chain.pallet.config().min_orchestrator_collators, 0);
    assert_eq!(chain.pallet.config().collators_per_container, 0);
    chain.run_to_block(16);
    assert_eq!(chain.pallet.config().max_collators, 50);
    assert_eq!(chain.pallet.config().min_orchestrator_collators, 20);
    assert_eq!(chain.pallet.config().collators_per_container, 0);
    chain.run_to_block(21);
    assert_eq!(chain.pallet.config().max_collators, 50);
    assert_eq!(chain.pallet.config().min_orchestrator_collators, 20);
    assert_eq!(chain.pallet.config().collators_per_container, 10);
}

#[test]
fn setters_refuse_non_root() {
    let mut chain = Chain::new(Configuration::new(SESSION_DELAY, HostConfiguration::default()));
    assert_eq!(chain.pallet.set_max_collators(Origin::Signed(1), 0, 50), Err(Error::BadOrigin));
    assert_eq!(chain.pallet.set_bypass_consistency_check(Origin::Unsigned, true), Err(Error::BadOrigin));
    assert_eq!(chain.pallet.pending_configs(), vec![]);
}

#[test]
fn setter_refuses_to_break_a_consistent_config() {
    let mut chain = Chain::new(Configuration::new(SESSION_DELAY, HostConfiguration::default()));
    assert_eq!(chain.pallet.set_max_collators(Origin::Root, 0, 0), Err(Error::InvalidNewValue));
    assert_eq!(chain.pallet.set_min_orchestrator_collators(Origin::Root, 0, 0), Err(Error::InvalidNewValue));
    assert_eq!(chain.pallet.pending_configs(), vec![]);
    // Unless the check is bypassed.
    assert_eq!(chain.pallet.set_bypass_consistency_check(Origin::Root, true), Ok(()));
    assert_eq!(chain.pallet.set_max_collators(Origin::Root, 0, 0), Ok(()));
    assert_eq!(chain.pallet.pending_configs().len(), 1);
}

#[test]
fn min_orchestrator_above_max_raises_max_and_back() {
    let mut chain = Chain::new(Configuration::new(SESSION_DELAY, HostConfiguration::default()));
    assert_eq!(chain.pallet.set_min_orchestrator_collators(Origin::Root, 0, 8), Ok(()));
    let p = chain.pallet.pending_configs();
    assert_eq!((p[0].1.min_orchestrator_collators, p[0].1.max_orchestrator_collators), (8, 8));
    assert_eq!(chain.pallet.set_max_orchestrator_collators(Origin::Root, 0, 3), Ok(()));
    let p = chain.pallet.pending_configs();
    assert_eq!((p[0].1.min_orchestrator_collators, p[0].1.max_orchestrator_collators), (3, 3));
    assert_eq!(chain.pallet.config_for_session(1), HostConfiguration::default());
    assert_eq!(chain.pallet.config_for_session(2).max_orchestrator_collators, 3);
    assert_eq!(chain.pallet.max_collators_for_orchestrator(5), 3);
}

#[test]
fn check_consistency_reports_each_error() {
    let ok = HostConfiguration::default();
    assert_eq!(ok.check_consistency(), Ok(()));
    assert_eq!(
        HostConfiguration { max_collators: 0, ..ok }.check_consistency(),
        Err(InconsistentError::MaxCollatorsTooLow)
    );
    assert_eq!(
        HostConfiguration { min_orchestrator_collators: 0, ..ok }.check_consistency(),
        Err(InconsistentError::MinOrchestratorCollatorsTooLow)
    );
    assert_eq!(
        HostConfiguration { max_orchestrator_collators: 1, ..ok }.check_consistency(),
        Err(InconsistentError::MaxCollatorsLowerThanMinCollators)
    );
    assert_eq!(
        HostConfiguration { parathreads_per_collator: 2, ..ok }.check_consistency(),
        Err(InconsistentError::UnimplementedParameter)
    );
    assert_eq!(
        HostConfiguration { max_collators: 1, ..ok }.check_consistency(),
        Err(InconsistentError::MaxCollatorsLowerThanMinCollators)
    );
}

#[test]
fn default_target_fullness_is_eighty_percent() {
    assert_eq!(HostConfiguration::default().target_container_chain_fullness, 800_000_000);
    assert_eq!(HostConfiguration::default().full_rotation_period, 24);
}

#[test]
fn force_set_active_config_applies_at_once() {
    let mut chain = Chain::new(Configuration::new(SESSION_DELAY, HostConfiguration::default()));
    let c = HostConfiguration { max_collators: 7, ..HostConfiguration::default() };
    chain.pallet.force_set_active_config(c);
    assert_eq!(chain.pallet.config(), c);
    let out = chain.pallet.initializer_on_new_session(1);
    assert_eq!(out.prev_config, c);
    assert_eq!(out.new_config, None);
}
