use vstd::prelude::*;
use crate::bits::bits;
use crate::dbus::DBus;
use crate::filters::Address;
use crate::lookups::{Lookups, lists};
use crate::permits::{PermitManager, PermitResult, PermitSaveState, activated, earliest_expiry, ended, expired};
use crate::processes::Processes;
use crate::rules::{RuleManager, deadline_after, earlier, min_opt};
use crate::tabs::{TabId, Tabs, TabsSaveState};
use crate::time::{Duration, Moment, clamp_u64};

verus! {

/// What the engine reacts to, besides the passing of time.
pub enum Event {
    PermitRequest { name: String },
    PermitEnd { name: String },
    TabUpdate { tab: TabId, url: Address },
    TabDelete { tab: TabId },
    TabDeleteAll { pid: u32 },
}

pub open spec fn spec_when_reload(rules: RuleManager, permits: PermitManager, processes: Processes, now: Moment) -> Option<u64> {
    min_opt(
        min_opt(rules.spec_when_reload(now), earliest_expiry(permits.state@, permits.state.len() as int)),
        Some(clamp_u64(processes.when_last_scan + processes.lookups.config.processes_scan_each.spec_millis())),
    )
}

/// The earliest instant at which a manager needs a reload.
pub fn compute_when_reload(rules: &RuleManager, permits: &PermitManager, processes: &Processes, now: &Moment) -> (r: Option<u64>)
    requires
        rules.wf(),
    ensures
        r == spec_when_reload(*rules, *permits, *processes, *now),
{
    earlier(earlier(rules.when_reload(now), permits.when_reload()), processes.when_reload())
}

/// The managers of one configuration.
pub struct Engine<'a> {
    pub rules: RuleManager<'a>,
    pub permits: PermitManager<'a>,
    pub tabs: Tabs<'a>,
    pub processes: Processes<'a>,
    pub restart_time: u64,
    pub reload_time: u64,
    pub when_reload_config: Option<u64>,
}

impl<'a> Engine<'a> {
    pub open spec fn wf(self) -> bool {
        &&& self.rules.wf()
        &&& self.permits.wf()
        &&& self.tabs.wf()
        &&& self.permits.lookups == self.rules.lookups
        &&& self.tabs.lookups == self.rules.lookups
        &&& self.processes.lookups == self.rules.lookups
    }

    /// `kill` holds exactly the declared processes whose categories are
    /// effectively blocked.
    pub open spec fn kills(self, kill: Seq<String>) -> bool {
        forall|p: Seq<char>|
            #[trigger] lists(kill, p) <==> lists(self.rules.lookups.process@, p) && crate::bits::effective_blocked(
                self.rules.lookups.process_categories(p),
                bits(self.rules.blocked),
                bits(self.permits.unblocked),
            )
    }

    /// The state a reconcile at `now` leaves: rules and permits reloaded, and
    /// no alive tab effectively blocked.
    pub open spec fn reconciled(self, now: Moment) -> bool {
        &&& bits(self.rules.blocked) == self.rules.spec_blocked()
        &&& forall|r: int| 0 <= r < self.rules.state.len() ==> self.rules.state[r] == self.rules.active_at(r, now)
        &&& bits(self.permits.unblocked) == self.permits.spec_unblocked()
        &&& forall|i: int|
            0 <= i < self.permits.state.len() ==> ((#[trigger] self.permits.state@[i]).expires matches Some(e) ==> e
                > now.millis)
        &&& self.tabs.settled(bits(self.rules.blocked), bits(self.permits.unblocked))
    }

    /// Starts the managers of a configuration at `now`; `restart_time` is
    /// when the daemon started.
    pub fn new(
        lookups: &'a Lookups<'a>,
        tabs: TabsSaveState,
        permits: PermitSaveState,
        restart_time: u64,
        now: &Moment,
    ) -> (r: Self)
        requires
            lookups.wf(),
        ensures
            r.wf(),
            r.rules.lookups == lookups,
            r.restart_time == restart_time,
            r.reload_time == now.millis,
            r.when_reload_config is None,
            forall|t: TabId|
                r.tabs.keys().contains(t) <==> tabs.tabs@.map_values(|e: (TabId, Address)| e.0).contains(t),
            forall|t: TabId| #[trigger] r.tabs.alive@.contains(t) <==> (tabs.alive@.contains(t) && r.tabs.keys().contains(t)),
            r.tabs.block_all_until == tabs.block_all_until,
            forall|j: int| 0 <= j < r.tabs.tabs.len() ==> tabs.tabs@.contains(((#[trigger] r.tabs.tabs@[j]).id, r.tabs.tabs@[j].url)),
            forall|i: int|
                0 <= i < r.permits.state.len() ==> r.permits.state[i] == match crate::permits::saved(
                    permits.state@,
                    lookups.permit.names()[i],
                ) {
                    Some(s) => s,
                    None => crate::permits::idle(),
                },
            r.processes.when_last_scan == now.millis,
    {
        Engine {
            rules: RuleManager::new(lookups, restart_time, now.millis),
            permits: PermitManager::new(lookups, permits),
            tabs: Tabs::new(lookups, tabs),
            processes: Processes::new(lookups, now),
            restart_time,
            reload_time: now.millis,
            when_reload_config: None,
        }
    }

    /// Reloads rules and permits, closes tabs and returns the processes to
    /// kill.
    pub fn reconcile(&mut self, now: &Moment, dbus: &mut DBus) -> (kill: Vec<String>)
        requires
            old(self).wf(),
        ensures
            final(self).wf(),
            final(self).reconciled(*now),
            final(self).rules.lookups == old(self).rules.lookups,
            old(self).rules.reloaded(final(self).rules, *now),
            old(self).permits.reloaded(final(self).permits, *now),
            final(self).tabs.tabs@ == old(self).tabs.tabs@,
            final(self).restart_time == old(self).restart_time,
            final(self).reload_time == old(self).reload_time,
            final(self).when_reload_config == old(self).when_reload_config,
            final(self).processes.when_last_scan == now.millis,
            final(self).kills(kill@),
    {
        let ghost start = *self;
        self.rules.reload(now);
        self.permits.reload(now);
        self.tabs.rescan(&self.rules.blocked, &self.permits.unblocked, dbus, now);
        let kill = self.processes.rescan(&self.rules.blocked, &self.permits.unblocked, now);
        proof {
            assert(self.rules.gate_open(*now) == start.rules.gate_open(*now));
            assert forall|r: int| 0 <= r < self.rules.state.len() implies self.rules.state[r] == self.rules.active_at(r, *now) by {
                assert(self.rules.active_at(r, *now) == start.rules.active_at(r, *now));
            }
        }
        kill
    }

    /// Handles one event at `now`: the reply to a permit request, and the
    /// processes to kill.
    pub fn handle(&mut self, event: Event, now: &Moment, dbus: &mut DBus) -> (r: (Option<PermitResult>, Vec<String>))
        requires
            old(self).wf(),
        ensures
            final(self).wf(),
            final(self).rules.lookups == old(self).rules.lookups,
            final(self).restart_time == old(self).restart_time,
            final(self).reload_time == old(self).reload_time,
            final(self).when_reload_config == old(self).when_reload_config,
            match event {
                Event::PermitRequest { .. } | Event::PermitEnd { .. } => r.0 is Some && final(self).reconciled(*now)
                    && final(self).kills(r.1@) && final(self).permits.state.len() == old(self).permits.state.len(),
                Event::TabUpdate { tab, url } => r.0 is None && r.1@.len() == 0 && final(self).tabs.keys().contains(tab)
                    && final(self).tabs.mask_of(tab) == old(self).rules.lookups.url_categories(url) && ((
                old(self).tabs.spec_should_block_all(*now) || crate::bits::effective_blocked(
                    old(self).rules.lookups.url_categories(url),
                    bits(old(self).rules.blocked),
                    bits(old(self).permits.unblocked),
                )) ==> !final(self).tabs.alive@.contains(tab)),
                Event::TabDelete { tab } => r.0 is None && r.1@.len() == 0 && old(self).tabs.removed(final(self).tabs, tab),
                Event::TabDeleteAll { pid } => r.0 is None && r.1@.len() == 0 && forall|t: TabId|
                    #[trigger] final(self).tabs.keys().contains(t) <==> (old(self).tabs.keys().contains(t) && t.pid != pid),
            },
            event matches Event::PermitRequest { name } ==> ({
                let pm = old(self).permits;
                &&& !pm.lookups.permit.names().contains(name@) ==> (r.0 matches Some(Err(
                    crate::permits::PermitError::PermitDoesNotExist { name: n },
                )) && n@ == name@)
                &&& !pm.lookups.permit.names().contains(name@) ==> forall|j: int|
                    0 <= j < pm.state.len() ==> final(self).permits.state@[j] == expired(pm.state@[j], *now)
                &&& forall|id: int|
                    pm.permit_id(name@, id) ==> {
                        let p = pm.lookups.config.permits@[id];
                        let err = crate::permits::activation_error(
                            pm.state@[id],
                            p,
                            pm.lookups.config.after,
                            *now,
                            old(self).restart_time,
                            old(self).reload_time,
                        );
                        let st = if err is Some { pm.state@[id] } else { activated(p, *now) };
                        &&& final(self).permits.state@[id] == expired(st, *now)
                        &&& forall|j: int|
                            0 <= j < pm.state.len() && j != id ==> final(self).permits.state@[j] == expired(pm.state@[j], *now)
                    }
                &&& forall|id: int|
                    pm.permit_id(name@, id) ==> r.0 == Some(
                        match crate::permits::activation_error(
                            pm.state@[id],
                            pm.lookups.config.permits@[id],
                            pm.lookups.config.after,
                            *now,
                            old(self).restart_time,
                            old(self).reload_time,
                        ) {
                            Some(e) => Err::<(), crate::permits::PermitError>(e),
                            None => Ok(()),
                        },
                    )
            }),
            event matches Event::PermitEnd { name } ==> ({
                let pm = old(self).permits;
                &&& !pm.lookups.permit.names().contains(name@) ==> (r.0 matches Some(Err(
                    crate::permits::PermitError::PermitDoesNotExist { name: n },
                )) && n@ == name@)
                &&& !pm.lookups.permit.names().contains(name@) ==> forall|j: int|
                    0 <= j < pm.state.len() ==> final(self).permits.state@[j] == expired(pm.state@[j], *now)
                &&& forall|id: int|
                    pm.permit_id(name@, id) ==> {
                        let st = if pm.state@[id].expires is None { pm.state@[id] } else { ended(pm.state@[id]) };
                        &&& final(self).permits.state@[id] == expired(st, *now)
                        &&& forall|j: int|
                            0 <= j < pm.state.len() && j != id ==> final(self).permits.state@[j] == expired(pm.state@[j], *now)
                    }
                &&& forall|id: int|
                    pm.permit_id(name@, id) ==> r.0 == Some(
                        if pm.state@[id].expires is None {
                            Err::<(), crate::permits::PermitError>(crate::permits::PermitError::PermitIsNotActive)
                        } else {
                            Ok(())
                        },
                    )
            }),
    {
        match event {
            Event::PermitRequest { name } => {
                let n = name.as_str();
                let reply = self.permits.activate(n, now, self.restart_time, self.reload_time);
                let kill = self.reconcile(now, dbus);
                (Some(reply), kill)
            },
            Event::PermitEnd { name } => {
                let n = name.as_str();
                let reply = self.permits.deactivate(n);
                let kill = self.reconcile(now, dbus);
                (Some(reply), kill)
            },
            Event::TabUpdate { tab, url } => {
                self.tabs.insert(tab, url, &self.rules.blocked, &self.permits.unblocked, dbus, now);
                (None, Vec::new())
            },
            Event::TabDelete { tab } => {
                self.tabs.remove(tab);
                (None, Vec::new())
            },
            Event::TabDeleteAll { pid } => {
                self.tabs.clear(pid);
                (None, Vec::new())
            },
        }
    }

    /// When the engine next needs to wake: a manager's reload, or the end of
    /// the delay before a new configuration takes over.
    pub fn when_reload(&self, now: &Moment) -> (r: Option<u64>)
        requires
            self.wf(),
        ensures
            r == min_opt(spec_when_reload(self.rules, self.permits, self.processes, *now), self.when_reload_config),
    {
        earlier(compute_when_reload(&self.rules, &self.permits, &self.processes, now), self.when_reload_config)
    }

    /// A new configuration was loaded at `now`; it takes over after `delay`.
    pub fn schedule_reload(&mut self, now: &Moment, delay: &Option<Duration>)
        ensures
            final(self).when_reload_config == Some(
                match delay {
                    Some(d) => clamp_u64(now.millis + d.spec_millis()),
                    None => now.millis,
                },
            ),
            final(self).rules == old(self).rules,
            final(self).permits == old(self).permits,
            final(self).tabs == old(self).tabs,
            final(self).processes == old(self).processes,
            final(self).restart_time == old(self).restart_time,
            final(self).reload_time == old(self).reload_time,
    {
        let at = match deadline_after(now.millis, delay) {
            Some(t) => t,
            None => now.millis,
        };
        self.when_reload_config = Some(at);
    }

    /// Whether the scheduled configuration is due at `now`.
    pub fn reload_due(&self, now: &Moment) -> (r: bool)
        ensures
            r == (self.when_reload_config matches Some(t) && t <= now.millis),
    {
        match self.when_reload_config {
            Some(t) => t <= now.millis,
            None => false,
        }
    }

    /// The tabs and permits to carry over to the next configuration.
    pub fn save_state(self) -> (r: (TabsSaveState, PermitSaveState))
        requires
            self.wf(),
        ensures
            r.0.tabs@.map_values(|e: (TabId, Address)| e.0) == self.tabs.keys(),
            r.0.tabs@.len() == self.tabs.tabs@.len(),
            forall|k: int|
                0 <= k < r.0.tabs@.len() ==> (#[trigger] r.0.tabs@[k]).0 == self.tabs.tabs@[k].id && r.0.tabs@[k].1
                    == self.tabs.tabs@[k].url,
            r.0.alive@ == self.tabs.alive@,
            r.0.block_all_until == self.tabs.block_all_until,
            r.1.state.len() == self.permits.state.len(),
            forall|i: int|
                #![trigger r.1.state@[i]]
                0 <= i < r.1.state.len() ==> r.1.state@[i].0@ == self.permits.lookups.permit.names()[i]
                    && r.1.state@[i].1 == self.permits.state@[i],
    {
        let Engine { rules: _, permits, tabs, processes: _, restart_time: _, reload_time: _, when_reload_config: _ } = self;
        (tabs.save_state(), permits.save_state())
    }
}

} // verus!
