//! Configuration: the parameters of collator assignment, whose changes are scheduled for a
//! later session.

use vstd::prelude::*;
use crate::origin::Origin;
use crate::perthings::perbill_from_percent;

verus! {

/// All configuration of the runtime with respect to parachains and parathreads.
#[derive(Debug, Clone, Copy, PartialEq, Eq, Structural)]
pub struct HostConfiguration {
    /// Maximum number of collators, in total, including orchestrator and containers
    pub max_collators: u32,
    /// Minimum number of collators to be assigned to orchestrator chain
    pub min_orchestrator_collators: u32,
    /// Maximum number of collators to be assigned to orchestrator chain after all the container
    /// chains have been assigned collators.
    pub max_orchestrator_collators: u32,
    /// How many collators to assign to one container chain
    pub collators_per_container: u32,
    /// Rotate all collators once every n sessions. If this value is 0 means that there is no
    /// rotation
    pub full_rotation_period: u32,
    /// How many collators to assign to one parathread
    pub collators_per_parathread: u32,
    /// How many parathreads can be assigned to one collator
    pub parathreads_per_collator: u32,
    /// Ratio of collators that we expect to be assigned to container chains, in parts per
    /// billion. Affects fees.
    pub target_container_chain_fullness: u32,
}

/// Enumerates the possible inconsistencies of `HostConfiguration`.
#[derive(Debug, Clone, Copy, PartialEq, Eq, Structural)]
pub enum InconsistentError {
    /// `max_orchestrator_collators` is lower than `min_orchestrator_collators`
    MaxCollatorsLowerThanMinCollators,
    /// `min_orchestrator_collators` must be at least 1
    MinOrchestratorCollatorsTooLow,
    /// `max_collators` must be at least 1
    MaxCollatorsTooLow,
    /// Tried to modify an unimplemented parameter
    UnimplementedParameter,
}

/// Errors of the configuration pallet.
#[derive(Debug, Clone, Copy, PartialEq, Eq, Structural)]
pub enum Error {
    /// The new value for a configuration parameter is invalid.
    InvalidNewValue,
    /// The call did not come from the root origin.
    BadOrigin,
}

impl HostConfiguration {
    /// The first inconsistency of this configuration, checked in the documented order, if any.
    pub open spec fn consistency(self) -> Result<(), InconsistentError> {
        if self.max_collators < 1 {
            Err(InconsistentError::MaxCollatorsTooLow)
        } else if self.min_orchestrator_collators < 1 {
            Err(InconsistentError::MinOrchestratorCollatorsTooLow)
        } else if self.max_orchestrator_collators < self.min_orchestrator_collators {
            Err(InconsistentError::MaxCollatorsLowerThanMinCollators)
        } else if self.parathreads_per_collator != 1 {
            Err(InconsistentError::UnimplementedParameter)
        } else if self.max_collators < self.min_orchestrator_collators {
            Err(InconsistentError::MaxCollatorsLowerThanMinCollators)
        } else {
            Ok(())
        }
    }

    /// Checks that this instance is consistent with the requirements on each individual member.
    ///
    /// # Errors
    ///
    /// This function returns an error if the configuration is inconsistent.
    pub fn check_consistency(&self) -> (res: Result<(), InconsistentError>)
        ensures
            res == self.consistency(),
    {
        if self.max_collators < 1 {
            return Err(InconsistentError::MaxCollatorsTooLow);
        }
        if self.min_orchestrator_collators < 1 {
            return Err(InconsistentError::MinOrchestratorCollatorsTooLow);
        }
        if self.max_orchestrator_collators < self.min_orchestrator_collators {
            return Err(InconsistentError::MaxCollatorsLowerThanMinCollators);
        }
        if self.parathreads_per_collator != 1 {
            return Err(InconsistentError::UnimplementedParameter);
        }
        if self.max_collators < self.min_orchestrator_collators {
            return Err(InconsistentError::MaxCollatorsLowerThanMinCollators);
        }
        Ok(())
    }

    /// Checks that this instance is consistent with the requirements on each individual member.
    /// An inconsistent configuration is a fault of the runtime, ruled out by the precondition.
    pub fn panic_if_not_consistent(&self)
        requires
            self.consistency() is Ok,
    {
    }
}

impl Default for HostConfiguration {
    fn default() -> (r: Self)
        ensures
            r == (HostConfiguration {
                max_collators: 100,
                min_orchestrator_collators: 2,
                max_orchestrator_collators: 5,
                collators_per_container: 2,
                full_rotation_period: 24,
                collators_per_parathread: 1,
                parathreads_per_collator: 1,
                target_container_chain_fullness: 800_000_000,
            }),
    {
        HostConfiguration {
            max_collators: 100,
            min_orchestrator_collators: 2,
            max_orchestrator_collators: 5,
            collators_per_container: 2,
            full_rotation_period: 24,
            collators_per_parathread: 1,
            parathreads_per_collator: 1,
            target_container_chain_fullness: perbill_from_percent(80),
        }
    }
}

/// A change of one parameter, as the setters of the pallet request it.
#[derive(Debug, Clone, Copy, PartialEq, Eq, Structural)]
pub enum ConfigUpdate {
    MaxCollators(u32),
    MinOrchestratorCollators(u32),
    MaxOrchestratorCollators(u32),
    CollatorsPerContainer(u32),
    FullRotationPeriod(u32),
    CollatorsPerParathread(u32),
    ParathreadsPerCollator(u32),
    TargetContainerChainFullness(u32),
}

/// The configuration after `update`. Raising the min number of orchestrator collators above
/// the max raises the max too, and lowering the max below the min lowers the min too.
pub open spec fn updated(config: HostConfiguration, update: ConfigUpdate) -> HostConfiguration {
    match update {
        ConfigUpdate::MaxCollators(new) => HostConfiguration { max_collators: new, ..config },
        ConfigUpdate::MinOrchestratorCollators(new) => HostConfiguration {
            min_orchestrator_collators: new,
            max_orchestrator_collators: if config.max_orchestrator_collators < new { new } else { config.max_orchestrator_collators },
            ..config
        },
        ConfigUpdate::MaxOrchestratorCollators(new) => HostConfiguration {
            max_orchestrator_collators: new,
            min_orchestrator_collators: if config.min_orchestrator_collators > new { new } else { config.min_orchestrator_collators },
            ..config
        },
        ConfigUpdate::CollatorsPerContainer(new) => HostConfiguration { collators_per_container: new, ..config },
        ConfigUpdate::FullRotationPeriod(new) => HostConfiguration { full_rotation_period: new, ..config },
        ConfigUpdate::CollatorsPerParathread(new) => HostConfiguration { collators_per_parathread: new, ..config },
        ConfigUpdate::ParathreadsPerCollator(new) => HostConfiguration { parathreads_per_collator: new, ..config },
        ConfigUpdate::TargetContainerChainFullness(new) => HostConfiguration { target_container_chain_fullness: new, ..config },
    }
}

/// Applies `update` to `config`.
pub fn apply_update(config: &mut HostConfiguration, update: ConfigUpdate)
    ensures
        *final(config) == updated(*old(config), update),
{
    match update {
        ConfigUpdate::MaxCollators(new) => {
            config.max_collators = new;
        },
        ConfigUpdate::MinOrchestratorCollators(new) => {
            if config.max_orchestrator_collators < new {
                config.max_orchestrator_collators = new;
            }
            config.min_orchestrator_collators = new;
        },
        ConfigUpdate::MaxOrchestratorCollators(new) => {
            if config.min_orchestrator_collators > new {
                config.min_orchestrator_collators = new;
            }
            config.max_orchestrator_collators = new;
        },
        ConfigUpdate::CollatorsPerContainer(new) => {
            config.collators_per_container = new;
        },
        ConfigUpdate::FullRotationPeriod(new) => {
            config.full_rotation_period = new;
        },
        ConfigUpdate::CollatorsPerParathread(new) => {
            config.collators_per_parathread = new;
        },
        ConfigUpdate::ParathreadsPerCollator(new) => {
            config.parathreads_per_collator = new;
        },
        ConfigUpdate::TargetContainerChainFullness(new) => {
            config.target_container_chain_fullness = new;
        },
    }
}

/// A pending change scheduled at or before `session`.
pub open spec fn at_or_before(session: u32) -> spec_fn((u32, HostConfiguration)) -> bool {
    |c: (u32, HostConfiguration)| c.0 <= session
}

/// A pending change scheduled after `session`.
pub open spec fn after(session: u32) -> spec_fn((u32, HostConfiguration)) -> bool {
    |c: (u32, HostConfiguration)| c.0 > session
}

/// Index of the first pending change scheduled at or after `session`, looking from `i` on.
pub open spec fn first_at_or_after(pending: Seq<(u32, HostConfiguration)>, session: u32, i: int) -> int
    decreases pending.len() - i,
{
    if i >= pending.len() || i < 0 {
        pending.len() as int
    } else if pending[i].0 >= session {
        i
    } else {
        first_at_or_after(pending, session, i + 1)
    }
}

/// The pending changes once `new` is scheduled for `session`: it replaces the first change
/// scheduled at or after `session`, or is appended when there is none.
pub open spec fn scheduled(pending: Seq<(u32, HostConfiguration)>, session: u32, new: HostConfiguration) -> Seq<(u32, HostConfiguration)> {
    let i = first_at_or_after(pending, session, 0);
    if i < pending.len() {
        pending.update(i, (pending[i].0, new))
    } else {
        pending.push((session, new))
    }
}

/// The configuration in force at `session`: the last pending change scheduled at or before it,
/// or the active one.
pub open spec fn config_at(active: HostConfiguration, pending: Seq<(u32, HostConfiguration)>, session: u32) -> HostConfiguration {
    let past = pending.filter(at_or_before(session));
    if past.len() > 0 { past.last().1 } else { active }
}

/// The outcome of a session change for the configuration.
pub struct SessionChangeOutcome {
    /// Previously active configuration.
    pub prev_config: HostConfiguration,
    /// If new configuration was applied during the session change, this is the new
    /// configuration.
    pub new_config: Option<HostConfiguration>,
}

/// State of the configuration pallet.
pub struct Configuration {
    /// Wait this many sessions before applying a change.
    pub session_delay: u32,
    /// The active configuration for the current session.
    pub active_config: HostConfiguration,
    /// Pending configuration changes, each with the session index at which it applies.
    pub pending_configs: Vec<(u32, HostConfiguration)>,
    /// If set, the configuration setters bypass the consistency checks.
    pub bypass_consistency_check: bool,
}

/// What a setter does: from the root origin it schedules `update` as `schedule_spec` says, from
/// any other origin it fails with `BadOrigin`; it changes nothing else.
pub open spec fn set_outcome(
    before: Configuration,
    origin: Origin,
    current_session: u32,
    update: ConfigUpdate,
    res: Result<(), Error>,
    after: Configuration,
) -> bool {
    &&& after.active_config == before.active_config
    &&& after.bypass_consistency_check == before.bypass_consistency_check
    &&& after.session_delay == before.session_delay
    &&& origin != Origin::Root ==> res == Err::<(), Error>(Error::BadOrigin) && after.pending_configs@ == before.pending_configs@
    &&& origin == Origin::Root ==> match before.schedule_spec(current_session, update) {
        Ok(p) => res is Ok && after.pending_configs@ == p,
        Err(e) => res == Err::<(), Error>(e) && after.pending_configs@ == before.pending_configs@,
    }
}

impl Configuration {
    /// A pallet whose active configuration is `config`, as the genesis config builds it. An
    /// inconsistent genesis configuration is ruled out by the precondition.
    pub fn new(session_delay: u32, config: HostConfiguration) -> (r: Self)
        requires
            config.consistency() is Ok,
        ensures
            r.session_delay == session_delay,
            r.active_config == config,
            r.pending_configs@ == Seq::<(u32, HostConfiguration)>::empty(),
            !r.bypass_consistency_check,
    {
        config.panic_if_not_consistent();
        Configuration { session_delay, active_config: config, pending_configs: Vec::new(), bypass_consistency_check: false }
    }

    /// The active configuration.
    pub fn config(&self) -> (r: HostConfiguration)
        ensures
            r == self.active_config,
    {
        self.active_config
    }

    /// The pending configuration changes.
    pub fn pending_configs(&self) -> (r: Vec<(u32, HostConfiguration)>)
        ensures
            r@ == self.pending_configs@,
    {
        let mut r: Vec<(u32, HostConfiguration)> = Vec::new();
        let mut i: usize = 0;
        while i < self.pending_configs.len()
            invariant
                0 <= i <= self.pending_configs.len(),
                r@ == self.pending_configs@.take(i as int),
            decreases self.pending_configs.len() - i,
        {
            r.push(self.pending_configs[i]);
            assert(self.pending_configs@.take(i as int + 1) =~= self.pending_configs@.take(i as int).push(self.pending_configs@[i as int]));
            i = i + 1;
        }
        assert(self.pending_configs@.take(self.pending_configs.len() as int) =~= self.pending_configs@);
        r
    }

    /// Forcibly set the active config.
    pub fn force_set_active_config(&mut self, config: HostConfiguration)
        ensures
            final(self).active_config == config,
            final(self).pending_configs@ == old(self).pending_configs@,
            final(self).bypass_consistency_check == old(self).bypass_consistency_check,
            final(self).session_delay == old(self).session_delay,
    {
        self.active_config = config;
    }

    /// The session index that should be used for any future scheduled changes.
    pub open spec fn scheduled_session_at(self, current_session: u32) -> u32 {
        if current_session + self.session_delay > u32::MAX { u32::MAX } else { (current_session + self.session_delay) as u32 }
    }

    /// The session index that should be used for any future scheduled changes, at
    /// `current_session`.
    pub fn scheduled_session(&self, current_session: u32) -> (r: u32)
        ensures
            r == self.scheduled_session_at(current_session),
    {
        current_session.saturating_add(self.session_delay)
    }

    /// The pallet after scheduling `update` at `current_session`, or the error.
    pub open spec fn schedule_spec(self, current_session: u32, update: ConfigUpdate) -> Result<Seq<(u32, HostConfiguration)>, Error> {
        let base = if self.pending_configs@.len() > 0 { self.pending_configs@.last().1 } else { self.active_config };
        let new = updated(base, update);
        if !self.bypass_consistency_check && new.consistency() is Err && base.consistency() is Ok {
            Err(Error::InvalidNewValue)
        } else {
            Ok(scheduled(self.pending_configs@, self.scheduled_session_at(current_session), new))
        }
    }

    /// Schedules `update` for the scheduled session. The update is based on the last pending
    /// configuration, or the active one. It is refused when it makes a consistent configuration
    /// inconsistent, unless the consistency check is bypassed; a configuration that was already
    /// broken may be updated, so that it can be brought back into a consistent state.
    pub fn schedule_config_update(&mut self, current_session: u32, update: ConfigUpdate) -> (res: Result<(), Error>)
        ensures
            final(self).active_config == old(self).active_config,
            final(self).bypass_consistency_check == old(self).bypass_consistency_check,
            final(self).session_delay == old(self).session_delay,
            match old(self).schedule_spec(current_session, update) {
                Ok(p) => res is Ok && final(self).pending_configs@ == p,
                Err(e) => res == Err::<(), Error>(e) && final(self).pending_configs@ == old(self).pending_configs@,
            },
            sorted_sessions(old(self).pending_configs@) ==> sorted_sessions(final(self).pending_configs@),
    {
        proof {
            if sorted_sessions(old(self).pending_configs@) {
                schedule_keeps_pending_sorted(*old(self), current_session, update);
            }
        }
        let mut base_config = if self.pending_configs.len() > 0 {
            self.pending_configs[self.pending_configs.len() - 1].1
        } else {
            self.active_config
        };
        let base_config_consistent = base_config.check_consistency().is_ok();
        apply_update(&mut base_config, update);
        let new_config = base_config;

        if self.bypass_consistency_check {
            // The consistency check is bypassed.
        } else if new_config.check_consistency().is_err() {
            if base_config_consistent {
                return Err(Error::InvalidNewValue);
            }
        }

        let scheduled_session = current_session.saturating_add(self.session_delay);
        let mut i: usize = 0;
        let ghost p0 = self.pending_configs@;
        while i < self.pending_configs.len() && self.pending_configs[i].0 < scheduled_session
            invariant
                0 <= i <= self.pending_configs.len(),
                self.pending_configs@ == p0,
                first_at_or_after(p0, scheduled_session, 0) == first_at_or_after(p0, scheduled_session, i as int),
            decreases self.pending_configs.len() - i,
        {
            i = i + 1;
        }
        if i < self.pending_configs.len() {
            let at = self.pending_configs[i].0;
            self.pending_configs.set(i, (at, new_config));
        } else {
            self.pending_configs.push((scheduled_session, new_config));
        }
        Ok(())
    }

    /// Applies a change of one parameter, from the root origin.
    pub fn set_config(&mut self, origin: Origin, current_session: u32, update: ConfigUpdate) -> (res: Result<(), Error>)
        ensures
            final(self).active_config == old(self).active_config,
            final(self).bypass_consistency_check == old(self).bypass_consistency_check,
            final(self).session_delay == old(self).session_delay,
            origin != Origin::Root ==> res == Err::<(), Error>(Error::BadOrigin) && final(self).pending_configs@ == old(self).pending_configs@,
            origin == Origin::Root ==> match old(self).schedule_spec(current_session, update) {
                Ok(p) => res is Ok && final(self).pending_configs@ == p,
                Err(e) => res == Err::<(), Error>(e) && final(self).pending_configs@ == old(self).pending_configs@,
            },
    {
        match origin {
            Origin::Root => self.schedule_config_update(current_session, update),
            _ => Err(Error::BadOrigin),
        }
    }

    /// Sets the maximum number of collators, in total.
    pub fn set_max_collators(&mut self, origin: Origin, current_session: u32, new: u32) -> (res: Result<(), Error>)
        ensures
            set_outcome(*old(self), origin, current_session, ConfigUpdate::MaxCollators(new), res, *final(self)),
    {
        self.set_config(origin, current_session, ConfigUpdate::MaxCollators(new))
    }

    /// Sets the minimum number of collators of the orchestrator chain; the max follows when it is lower.
    pub fn set_min_orchestrator_collators(&mut self, origin: Origin, current_session: u32, new: u32) -> (res: Result<(), Error>)
        ensures
            set_outcome(*old(self), origin, current_session, ConfigUpdate::MinOrchestratorCollators(new), res, *final(self)),
    {
        self.set_config(origin, current_session, ConfigUpdate::MinOrchestratorCollators(new))
    }

    /// Sets the maximum number of collators of the orchestrator chain; the min follows when it is higher.
    pub fn set_max_orchestrator_collators(&mut self, origin: Origin, current_session: u32, new: u32) -> (res: Result<(), Error>)
        ensures
            set_outcome(*old(self), origin, current_session, ConfigUpdate::MaxOrchestratorCollators(new), res, *final(self)),
    {
        self.set_config(origin, current_session, ConfigUpdate::MaxOrchestratorCollators(new))
    }

    /// Sets the number of collators of each container chain.
    pub fn set_collators_per_container(&mut self, origin: Origin, current_session: u32, new: u32) -> (res: Result<(), Error>)
        ensures
            set_outcome(*old(self), origin, current_session, ConfigUpdate::CollatorsPerContainer(new), res, *final(self)),
    {
        self.set_config(origin, current_session, ConfigUpdate::CollatorsPerContainer(new))
    }

    /// Sets the number of sessions between full rotations (0 disables them).
    pub fn set_full_rotation_period(&mut self, origin: Origin, current_session: u32, new: u32) -> (res: Result<(), Error>)
        ensures
            set_outcome(*old(self), origin, current_session, ConfigUpdate::FullRotationPeriod(new), res, *final(self)),
    {
        self.set_config(origin, current_session, ConfigUpdate::FullRotationPeriod(new))
    }

    /// Sets the number of collators of each parathread.
    pub fn set_collators_per_parathread(&mut self, origin: Origin, current_session: u32, new: u32) -> (res: Result<(), Error>)
        ensures
            set_outcome(*old(self), origin, current_session, ConfigUpdate::CollatorsPerParathread(new), res, *final(self)),
    {
        self.set_config(origin, current_session, ConfigUpdate::CollatorsPerParathread(new))
    }

    /// Sets the number of parathreads each collator serves.
    pub fn set_parathreads_per_collator(&mut self, origin: Origin, current_session: u32, new: u32) -> (res: Result<(), Error>)
        ensures
            set_outcome(*old(self), origin, current_session, ConfigUpdate::ParathreadsPerCollator(new), res, *final(self)),
    {
        self.set_config(origin, current_session, ConfigUpdate::ParathreadsPerCollator(new))
    }

    /// Sets the expected ratio of collators assigned to container chains, in parts per billion.
    pub fn set_target_container_chain_fullness(&mut self, origin: Origin, current_session: u32, new: u32) -> (res: Result<(), Error>)
        ensures
            set_outcome(*old(self), origin, current_session, ConfigUpdate::TargetContainerChainFullness(new), res, *final(self)),
    {
        self.set_config(origin, current_session, ConfigUpdate::TargetContainerChainFullness(new))
    }

    /// Setting this to true will disable consistency checks for the configuration setters.
    pub fn set_bypass_consistency_check(&mut self, origin: Origin, new: bool) -> (res: Result<(), Error>)
        ensures
            final(self).active_config == old(self).active_config,
            final(self).pending_configs@ == old(self).pending_configs@,
            final(self).session_delay == old(self).session_delay,
            origin == Origin::Root ==> res is Ok && final(self).bypass_consistency_check == new,
            origin != Origin::Root ==> res == Err::<(), Error>(Error::BadOrigin) && final(self).bypass_consistency_check == old(self).bypass_consistency_check,
    {
        match origin {
            Origin::Root => {
                self.bypass_consistency_check = new;
                Ok(())
            },
            _ => Err(Error::BadOrigin),
        }
    }

    /// Called by the initializer to note that a new session has started.
    ///
    /// Returns the configuration that was active before the session change and the configuration
    /// that became active after the session change, if any. Changes scheduled at or before
    /// `session_index` are applied (the last one wins) and dropped from the pending list.
    pub fn initializer_on_new_session(&mut self, session_index: u32) -> (res: SessionChangeOutcome)
        ensures
            sorted_sessions(old(self).pending_configs@) ==> sorted_sessions(final(self).pending_configs@),
            res.prev_config == old(self).active_config,
            final(self).session_delay == old(self).session_delay,
            final(self).bypass_consistency_check == old(self).bypass_consistency_check,
            ({
                let past = old(self).pending_configs@.filter(at_or_before(session_index));
                let future = old(self).pending_configs@.filter(after(session_index));
                if old(self).pending_configs@.len() == 0 {
                    &&& res.new_config is None
                    &&& final(self).active_config == old(self).active_config
                    &&& final(self).pending_configs@ == old(self).pending_configs@
                } else {
                    &&& res.new_config == (if past.len() > 0 { Some(past.last().1) } else { None })
                    &&& final(self).active_config == (if past.len() > 0 { past.last().1 } else { old(self).active_config })
                    &&& final(self).pending_configs@ == future
                }
            }),
    {
        proof {
            if sorted_sessions(old(self).pending_configs@) {
                new_session_keeps_pending_sorted(old(self).pending_configs@, session_index);
            }
        }
        let prev_config = self.active_config;
        if self.pending_configs.len() == 0 {
            return SessionChangeOutcome { prev_config, new_config: None };
        }
        let ghost p0 = self.pending_configs@;
        let ghost is_past = at_or_before(session_index);
        let ghost is_future = after(session_index);
        let mut past_and_present: Vec<(u32, HostConfiguration)> = Vec::new();
        let mut future: Vec<(u32, HostConfiguration)> = Vec::new();
        let mut i: usize = 0;
        while i < self.pending_configs.len()
            invariant
                0 <= i <= self.pending_configs.len(),
                self.pending_configs@ == p0,
                is_past == at_or_before(session_index),
                is_future == after(session_index),
                past_and_present@ == p0.take(i as int).filter(is_past),
                future@ == p0.take(i as int).filter(is_future),
            decreases self.pending_configs.len() - i,
        {
            let c = self.pending_configs[i];
            proof {
                assert(p0.take(i as int + 1) =~= p0.take(i as int).push(c));
                p0.take(i as int).lemma_filter_push(c, is_past);
                p0.take(i as int).lemma_filter_push(c, is_future);
            }
            if c.0 <= session_index {
                past_and_present.push(c);
            } else {
                future.push(c);
            }
            i = i + 1;
        }
        assert(p0.take(p0.len() as int) =~= p0);
        let new_config = if past_and_present.len() > 0 {
            Some(past_and_present[past_and_present.len() - 1].1)
        } else {
            None
        };
        if let Some(c) = new_config {
            self.active_config = c;
        }
        self.pending_configs = future;
        SessionChangeOutcome { prev_config, new_config }
    }

    /// The configuration that will be in force at `session_index`.
    pub fn config_for_session(&self, session_index: u32) -> (r: HostConfiguration)
        ensures
            r == config_at(self.active_config, self.pending_configs@, session_index),
    {
        let ghost p0 = self.pending_configs@;
        let ghost is_past = at_or_before(session_index);
        let mut last: Option<HostConfiguration> = None;
        let mut i: usize = 0;
        while i < self.pending_configs.len()
            invariant
                0 <= i <= self.pending_configs.len(),
                self.pending_configs@ == p0,
                is_past == at_or_before(session_index),
                last == (if p0.take(i as int).filter(is_past).len() > 0 {
                    Some(p0.take(i as int).filter(is_past).last().1)
                } else {
                    None::<HostConfiguration>
                }),
            decreases self.pending_configs.len() - i,
        {
            let c = self.pending_configs[i];
            proof {
                assert(p0.take(i as int + 1) =~= p0.take(i as int).push(c));
                p0.take(i as int).lemma_filter_push(c, is_past);
            }
            if c.0 <= session_index {
                last = Some(c.1);
            }
            i = i + 1;
        }
        assert(p0.take(p0.len() as int) =~= p0);
        match last {
            Some(c) => c,
            None => self.active_config,
        }
    }

    /// Maximum number of collators at `session_index`.
    pub fn max_collators(&self, session_index: u32) -> (r: u32)
        ensures
            r == config_at(self.active_config, self.pending_configs@, session_index).max_collators,
    {
        self.config_for_session(session_index).max_collators
    }

    /// Collators per container chain at `session_index`.
    pub fn collators_per_container(&self, session_index: u32) -> (r: u32)
        ensures
            r == config_at(self.active_config, self.pending_configs@, session_index).collators_per_container,
    {
        self.config_for_session(session_index).collators_per_container
    }

    /// Collators per parathread at `session_index`.
    pub fn collators_per_parathread(&self, session_index: u32) -> (r: u32)
        ensures
            r == config_at(self.active_config, self.pending_configs@, session_index).collators_per_parathread,
    {
        self.config_for_session(session_index).collators_per_parathread
    }

    /// Minimum number of orchestrator collators at `session_index`.
    pub fn min_collators_for_orchestrator(&self, session_index: u32) -> (r: u32)
        ensures
            r == config_at(self.active_config, self.pending_configs@, session_index).min_orchestrator_collators,
    {
        self.config_for_session(session_index).min_orchestrator_collators
    }

    /// Maximum number of orchestrator collators at `session_index`.
    pub fn max_collators_for_orchestrator(&self, session_index: u32) -> (r: u32)
        ensures
            r == config_at(self.active_config, self.pending_configs@, session_index).max_orchestrator_collators,
    {
        self.config_for_session(session_index).max_orchestrator_collators
    }
}

} // verus!

verus! {

/// The pending changes are in strictly increasing order of session.
pub open spec fn sorted_sessions(p: Seq<(u32, HostConfiguration)>) -> bool {
    forall|i: int, j: int| 0 <= i < j < p.len() ==> #[trigger] p[i].0 < #[trigger] p[j].0
}

proof fn lemma_first_at_or_after(p: Seq<(u32, HostConfiguration)>, s: u32, i: int)
    requires
        0 <= i <= p.len(),
        forall|j: int| 0 <= j < i ==> #[trigger] p[j].0 < s,
    ensures
        i <= first_at_or_after(p, s, i) <= p.len(),
        forall|j: int| 0 <= j < first_at_or_after(p, s, i) ==> #[trigger] p[j].0 < s,
        first_at_or_after(p, s, i) < p.len() ==> p[first_at_or_after(p, s, i)].0 >= s,
    decreases p.len() - i,
{
    if i < p.len() && p[i].0 < s {
        lemma_first_at_or_after(p, s, i + 1);
    }
}

proof fn lemma_filter_sorted(p: Seq<(u32, HostConfiguration)>, f: spec_fn((u32, HostConfiguration)) -> bool)
    requires
        sorted_sessions(p),
    ensures
        sorted_sessions(p.filter(f)),
    decreases p.len(),
{
    if p.len() > 0 {
        let q = p.drop_last();
        let x = p.last();
        assert(sorted_sessions(q));
        lemma_filter_sorted(q, f);
        assert(q.push(x) =~= p);
        q.lemma_filter_push(x, f);
        if f(x) {
            assert forall|i: int| 0 <= i < q.filter(f).len() implies #[trigger] q.filter(f)[i].0 < x.0 by {
                q.lemma_filter_contains_rev(f, q.filter(f)[i]);
                let k = choose|k: int| 0 <= k < q.len() && q[k] == q.filter(f)[i];
                assert(p[k] == q[k]);
                assert(p[p.len() - 1] == x);
            }
        }
    }
}

proof fn lemma_filter_all(p: Seq<(u32, HostConfiguration)>, f: spec_fn((u32, HostConfiguration)) -> bool)
    requires
        forall|i: int| 0 <= i < p.len() ==> f(#[trigger] p[i]),
    ensures
        p.filter(f) == p,
    decreases p.len(),
{
    if p.len() > 0 {
        let q = p.drop_last();
        assert(q.push(p.last()) =~= p);
        assert forall|i: int| 0 <= i < q.len() implies f(#[trigger] q[i]) by {
            assert(q[i] == p[i]);
        }
        lemma_filter_all(q, f);
        q.lemma_filter_push(p.last(), f);
    } else {
        assert(p.filter(f) =~= p);
    }
}

/// The parameter `k` of a configuration, in the order of its fields.
pub open spec fn parameter(c: HostConfiguration, k: int) -> int {
    if k == 0 {
        c.max_collators as int
    } else if k == 1 {
        c.min_orchestrator_collators as int
    } else if k == 2 {
        c.max_orchestrator_collators as int
    } else if k == 3 {
        c.collators_per_container as int
    } else if k == 4 {
        c.full_rotation_period as int
    } else if k == 5 {
        c.collators_per_parathread as int
    } else if k == 6 {
        c.parathreads_per_collator as int
    } else {
        c.target_container_chain_fullness as int
    }
}

/// The parameter that a change sets (its index in `parameter`), and the value it sets.
pub open spec fn target(update: ConfigUpdate) -> (int, int) {
    match update {
        ConfigUpdate::MaxCollators(n) => (0, n as int),
        ConfigUpdate::MinOrchestratorCollators(n) => (1, n as int),
        ConfigUpdate::MaxOrchestratorCollators(n) => (2, n as int),
        ConfigUpdate::CollatorsPerContainer(n) => (3, n as int),
        ConfigUpdate::FullRotationPeriod(n) => (4, n as int),
        ConfigUpdate::CollatorsPerParathread(n) => (5, n as int),
        ConfigUpdate::ParathreadsPerCollator(n) => (6, n as int),
        ConfigUpdate::TargetContainerChainFullness(n) => (7, n as int),
    }
}

/// A change sets its own parameter to its value and keeps every other parameter, except that
/// the min and the max number of orchestrator collators move together: raising the min above
/// the max raises the max to it, and lowering the max below the min lowers the min to it.
pub proof fn a_change_sets_its_parameter_and_keeps_the_others(base: HostConfiguration, update: ConfigUpdate)
    ensures
        ({
            let new = updated(base, update);
            let (k, v) = target(update);
            &&& parameter(new, k) == v
            &&& forall|j: int| 0 <= j < 8 && j != k && !(k == 1 && j == 2) && !(k == 2 && j == 1)
                ==> #[trigger] parameter(new, j) == parameter(base, j)
            &&& k == 1 ==> parameter(new, 2) == (if parameter(base, 2) < v { v } else { parameter(base, 2) })
            &&& k == 2 ==> parameter(new, 1) == (if parameter(base, 1) > v { v } else { parameter(base, 1) })
        }),
{
}

/// Once a setter is accepted, the configuration in force at the scheduled session (when no
/// change was pending after it) is the one it was based on (the last pending one, or the
/// active one) with that setter's parameter set, and every other parameter kept, as
/// `a_change_sets_its_parameter_and_keeps_the_others` says.
pub proof fn a_set_parameter_is_in_force_at_the_scheduled_session(pallet: Configuration, current_session: u32, update: ConfigUpdate)
    requires
        sorted_sessions(pallet.pending_configs@),
        forall|i: int| 0 <= i < pallet.pending_configs@.len() ==> #[trigger] pallet.pending_configs@[i].0 <= pallet.scheduled_session_at(current_session),
        pallet.schedule_spec(current_session, update) is Ok,
    ensures
        ({
            let s = pallet.scheduled_session_at(current_session);
            let p = pallet.pending_configs@;
            let base = if p.len() > 0 { p.last().1 } else { pallet.active_config };
            let now = config_at(pallet.active_config, pallet.schedule_spec(current_session, update)->Ok_0, s);
            let (k, v) = target(update);
            &&& parameter(now, k) == v
            &&& forall|j: int| 0 <= j < 8 && j != k && !(k == 1 && j == 2) && !(k == 2 && j == 1)
                ==> #[trigger] parameter(now, j) == parameter(base, j)
        }),
{
    scheduled_change_is_in_force_at_scheduled_session(pallet, current_session, update);
    let p = pallet.pending_configs@;
    let base = if p.len() > 0 { p.last().1 } else { pallet.active_config };
    a_change_sets_its_parameter_and_keeps_the_others(base, update);
}

/// Scheduling a change keeps the pending changes in strictly increasing order of session.
pub proof fn schedule_keeps_pending_sorted(pallet: Configuration, current_session: u32, update: ConfigUpdate)
    requires
        sorted_sessions(pallet.pending_configs@),
    ensures
        pallet.schedule_spec(current_session, update) matches Ok(p) ==> sorted_sessions(p),
{
    let p = pallet.pending_configs@;
    let s = pallet.scheduled_session_at(current_session);
    lemma_first_at_or_after(p, s, 0);
}

/// A session change keeps the pending changes in strictly increasing order of session, and
/// leaves pending only the changes scheduled after that session.
pub proof fn new_session_keeps_pending_sorted(p: Seq<(u32, HostConfiguration)>, session_index: u32)
    requires
        sorted_sessions(p),
    ensures
        sorted_sessions(p.filter(after(session_index))),
        forall|i: int| 0 <= i < p.filter(after(session_index)).len() ==> #[trigger] p.filter(after(session_index))[i].0 > session_index,
{
    lemma_filter_sorted(p, after(session_index));
    assert forall|i: int| 0 <= i < p.filter(after(session_index)).len() implies #[trigger] p.filter(after(session_index))[i].0 > session_index by {
        p.lemma_filter_pred(after(session_index), i);
    }
}

/// Once a change is scheduled, the configuration in force at the scheduled session is the
/// changed one, when no change was pending after that session.
pub proof fn scheduled_change_is_in_force_at_scheduled_session(pallet: Configuration, current_session: u32, update: ConfigUpdate)
    requires
        sorted_sessions(pallet.pending_configs@),
        forall|i: int| 0 <= i < pallet.pending_configs@.len() ==> #[trigger] pallet.pending_configs@[i].0 <= pallet.scheduled_session_at(current_session),
        pallet.schedule_spec(current_session, update) is Ok,
    ensures
        ({
            let s = pallet.scheduled_session_at(current_session);
            let p = pallet.pending_configs@;
            let base = if p.len() > 0 { p.last().1 } else { pallet.active_config };
            config_at(pallet.active_config, pallet.schedule_spec(current_session, update)->Ok_0, s) == updated(base, update)
        }),
{
    let p = pallet.pending_configs@;
    let s = pallet.scheduled_session_at(current_session);
    lemma_first_at_or_after(p, s, 0);
    let q = pallet.schedule_spec(current_session, update)->Ok_0;
    assert forall|i: int| 0 <= i < q.len() implies at_or_before(s)(#[trigger] q[i]) by {
        if i < p.len() {
            assert(q[i].0 == p[i].0);
        }
    }
    lemma_filter_all(q, at_or_before(s));
    let i = first_at_or_after(p, s, 0);
    if i < p.len() {
        assert(i == p.len() - 1) by {
            if i < p.len() - 1 {
                assert(p[i].0 < p[p.len() - 1].0);
            }
        }
    }
}

} // verus!
