use vstd::prelude::*;
use fixedbitset::FixedBitSet;
use crate::bits::{bits, bit_len, clear_bits, new_mask, set_bit};
use crate::config::{After, Permit};
use crate::lookups::{Lookups, first_index};
use crate::rules::{deadline, deadline_after, earlier, min_opt, picked_categories};
use crate::time::{Duration, Moment, NaiveTime, clamp_u64};

verus! {

/// Why a permit could not be started or ended. Times left are in
/// milliseconds.
#[derive(Debug, PartialEq, Eq)]
pub enum PermitError {
    PermitDoesNotExist { name: String },
    PermitIsNotActive,
    PermitExtensionRefused(Box<PermitError>),
    CooldownNotFinished { left: u64 },
    AvailableBadTime { since: NaiveTime, until: NaiveTime },
    CooldownAfterRestart { left: u64 },
}

pub type PermitResult = Result<(), PermitError>;

/// Runtime state of one permit; instants in milliseconds since the epoch.
#[derive(Clone, Copy, Debug, PartialEq, Eq, Structural)]
pub struct PermitState {
    pub expires: Option<u64>,
    pub last_active: Option<u64>,
}

/// Permit states carried over a configuration reload, by permit name.
pub struct PermitSaveState {
    pub state: Vec<(String, PermitState)>,
}

impl PermitSaveState {
    pub fn new() -> (r: Self)
        ensures
            r.state@.len() == 0,
    {
        PermitSaveState { state: Vec::new() }
    }
}

/// The saved state of the first entry called `name`.
pub open spec fn saved(entries: Seq<(String, PermitState)>, name: Seq<char>) -> Option<PermitState>
    decreases entries.len(),
{
    if entries.len() == 0 {
        None
    } else if entries[0].0@ == name {
        Some(entries[0].1)
    } else {
        saved(entries.drop_first(), name)
    }
}

pub open spec fn idle() -> PermitState {
    PermitState { expires: None, last_active: None }
}

/// Milliseconds from `start` to `now`, and none when the clock went back.
pub open spec fn elapsed(now: Moment, start: u64) -> int {
    if now.millis >= start {
        now.millis - start
    } else {
        0
    }
}

pub open spec fn cooldown_error(st: PermitState, p: Permit, now: Moment) -> Option<PermitError> {
    if st.last_active is Some && p.cooldown is Some {
        let end = deadline(st.last_active.unwrap(), p.cooldown).unwrap();
        if end > now.millis {
            let e = PermitError::CooldownNotFinished { left: (end - now.millis) as u64 };
            Some(
                if st.expires is Some {
                    PermitError::PermitExtensionRefused(Box::new(e))
                } else {
                    e
                },
            )
        } else {
            None
        }
    } else {
        None
    }
}

pub open spec fn after_event_error(now: Moment, start: u64, cooldown: Option<Duration>) -> Option<PermitError> {
    match cooldown {
        Some(d) => if elapsed(now, start) < d.spec_millis() {
            Some(PermitError::CooldownAfterRestart { left: (d.spec_millis() - elapsed(now, start)) as u64 })
        } else {
            None
        },
        None => None,
    }
}

pub open spec fn availability_error(p: Permit, now: Moment) -> Option<PermitError> {
    if p.spec_is_available(now) {
        None
    } else {
        Some(
            PermitError::AvailableBadTime {
                since: p.available.unwrap().since,
                until: p.available.unwrap().until,
            },
        )
    }
}

/// The first check that refuses an activation, if any.
pub open spec fn activation_error(
    st: PermitState,
    p: Permit,
    after: After,
    now: Moment,
    restart: u64,
    reload: u64,
) -> Option<PermitError> {
    if cooldown_error(st, p, now) is Some {
        cooldown_error(st, p, now)
    } else if after_event_error(now, restart, after.restart.block.permits) is Some {
        after_event_error(now, restart, after.restart.block.permits)
    } else if after_event_error(now, reload, after.reload.block.permits) is Some {
        after_event_error(now, reload, after.reload.block.permits)
    } else {
        availability_error(p, now)
    }
}

/// The state after a successful activation.
pub open spec fn activated(p: Permit, now: Moment) -> PermitState {
    PermitState { expires: Some(clamp_u64(now.millis + p.length.spec_millis())), last_active: Some(now.millis) }
}

/// The state after the permit is ended early.
pub open spec fn ended(st: PermitState) -> PermitState {
    PermitState { expires: None, ..st }
}

/// Starting a permit and then ending it leaves it inactive, with the start
/// kept as its last activation.
pub proof fn lemma_start_then_end(p: Permit, now: Moment)
    ensures
        ended(activated(p, now)) == (PermitState { expires: None, last_active: Some(now.millis) }),
{
}

/// The state after a reload at `now`: a permit that ran out is no longer active.
pub open spec fn expired(st: PermitState, now: Moment) -> PermitState {
    match st.expires {
        Some(e) => if e <= now.millis {
            PermitState { expires: None, ..st }
        } else {
            st
        },
        None => st,
    }
}

/// The earliest expiry among the first `n` states.
pub open spec fn earliest_expiry(states: Seq<PermitState>, n: int) -> Option<u64>
    decreases n,
{
    if n <= 0 {
        None
    } else {
        min_opt(earliest_expiry(states, n - 1), states[n - 1].expires)
    }
}

/// Maintains the categories that active permits unblock.
pub struct PermitManager<'a> {
    pub lookups: &'a Lookups<'a>,
    pub unblocked: FixedBitSet,
    pub state: Vec<PermitState>,
}

impl<'a> PermitManager<'a> {
    pub open spec fn wf(self) -> bool {
        &&& self.lookups.wf()
        &&& self.state.len() == self.lookups.config.permits.len()
        &&& bit_len(self.unblocked) == self.lookups.n_categories()
    }

    /// Which permits are active.
    pub open spec fn active(self) -> Seq<bool> {
        self.state@.map_values(|s: PermitState| s.expires is Some)
    }

    /// The categories of the active permits.
    pub open spec fn spec_unblocked(self) -> Set<int> {
        picked_categories(self.lookups.permit_categories@, self.active())
    }

    pub open spec fn permit_id(self, name: Seq<char>, id: int) -> bool {
        first_index(self.lookups.permit.names(), name, id)
    }

    /// `next` is `self` after a reload at `now`.
    pub open spec fn reloaded(self, next: Self, now: Moment) -> bool {
        &&& next.lookups == self.lookups
        &&& next.state.len() == self.state.len()
        &&& forall|i: int| 0 <= i < next.state.len() ==> next.state[i] == expired(self.state[i], now)
        &&& bits(next.unblocked) == next.spec_unblocked()
    }

    /// A second reload at the same instant changes nothing.
    pub proof fn lemma_reload_twice(first: Self, second: Self, third: Self, now: Moment)
        requires
            first.reloaded(second, now),
            second.reloaded(third, now),
        ensures
            third.state@ == second.state@,
            bits(third.unblocked) == bits(second.unblocked),
    {
        assert(third.state@ =~= second.state@);
        assert(third.active() =~= second.active());
    }

    /// Restores the state of each permit whose name the save state holds.
    pub fn new(lookups: &'a Lookups<'a>, save_state: PermitSaveState) -> (r: Self)
        requires
            lookups.wf(),
        ensures
            r.wf(),
            r.lookups == lookups,
            bits(r.unblocked) == Set::<int>::empty(),
            forall|i: int|
                0 <= i < r.state.len() ==> r.state[i] == match saved(save_state.state@, lookups.permit.names()[i]) {
                    Some(s) => s,
                    None => idle(),
                },
    {
        let unblocked = new_mask(lookups.config.categories.len());
        let n = lookups.permit.len();
        assert(lookups.permit.names().len() == lookups.permit.name@.len());
        let mut state: Vec<PermitState> = Vec::new();
        let mut i: usize = 0;
        while i < n
            invariant
                lookups.wf(),
                n == lookups.permit.name.len(),
                n == lookups.config.permits.len(),
                0 <= i <= n,
                state.len() == i,
                forall|j: int|
                    0 <= j < i ==> state[j] == match saved(save_state.state@, lookups.permit.names()[j]) {
                        Some(s) => s,
                        None => idle(),
                    },
            decreases n - i,
        {
            let s = match find_saved(&save_state.state, &lookups.permit.name[i]) {
                Some(s) => s,
                None => PermitState { expires: None, last_active: None },
            };
            state.push(s);
            i += 1;
        }
        PermitManager { lookups, unblocked, state }
    }

    pub fn unblocked(&self) -> (r: &FixedBitSet)
        ensures
            r == &self.unblocked,
    {
        &self.unblocked
    }

    fn get_permit(&self, name: &str) -> (r: Result<usize, PermitError>)
        requires
            self.wf(),
        ensures
            r matches Ok(id) ==> self.permit_id(name@, id as int) && id < self.state.len(),
            r matches Err(e) ==> !self.lookups.permit.names().contains(name@) && e == (PermitError::PermitDoesNotExist {
                name: e->PermitDoesNotExist_name,
            }) && e->PermitDoesNotExist_name@ == name@,
    {
        match self.lookups.permit.id(name) {
            Some(id) => Ok(id),
            None => Err(PermitError::PermitDoesNotExist { name: name.to_owned() }),
        }
    }

    /// Starts permit `name` at `now`. `restart` and `reload` are when the
    /// daemon started and when this configuration was loaded.
    pub fn activate(&mut self, name: &str, now: &Moment, restart: u64, reload: u64) -> (r: PermitResult)
        requires
            old(self).wf(),
        ensures
            final(self).wf(),
            final(self).lookups == old(self).lookups,
            final(self).unblocked == old(self).unblocked,
            !old(self).lookups.permit.names().contains(name@) ==> (r matches Err(
                PermitError::PermitDoesNotExist { name: n },
            ) && n@ == name@ && final(self).state@ == old(self).state@),
            forall|id: int|
                old(self).permit_id(name@, id) ==> {
                    let st = old(self).state@[id];
                    let p = old(self).lookups.config.permits@[id];
                    match activation_error(st, p, old(self).lookups.config.after, *now, restart, reload) {
                        Some(e) => r == Err::<(), PermitError>(e) && final(self).state@ == old(self).state@,
                        None => r == Ok::<(), PermitError>(()) && final(self).state@ == old(self).state@.update(id, activated(p, *now)),
                    }
                },
    {
        let id = self.get_permit(name)?;
        let details = &self.lookups.config.permits[id];
        let st = self.state[id];
        check_cooldown(now, &st, details)?;
        check_after_event(now, restart, &self.lookups.config.after.restart.block.permits)?;
        check_after_event(now, reload, &self.lookups.config.after.reload.block.permits)?;
        check_available(now, details)?;
        let expires = now.millis.saturating_add(details.length.millis());
        self.state.set(id, PermitState { expires: Some(expires), last_active: Some(now.millis) });
        Ok(())
    }

    /// Ends permit `name` early; when it last started is kept.
    pub fn deactivate(&mut self, name: &str) -> (r: PermitResult)
        requires
            old(self).wf(),
        ensures
            final(self).wf(),
            final(self).lookups == old(self).lookups,
            final(self).unblocked == old(self).unblocked,
            !old(self).lookups.permit.names().contains(name@) ==> (r matches Err(
                PermitError::PermitDoesNotExist { name: n },
            ) && n@ == name@ && final(self).state@ == old(self).state@),
            forall|id: int|
                old(self).permit_id(name@, id) ==> {
                    let st = old(self).state@[id];
                    if st.expires is None {
                        r == Err::<(), PermitError>(PermitError::PermitIsNotActive) && final(self).state@ == old(self).state@
                    } else {
                        r == Ok::<(), PermitError>(()) && final(self).state@ == old(self).state@.update(id, ended(st))
                    }
                },
    {
        let id = self.get_permit(name)?;
        let st = self.state[id];
        if st.expires.is_none() {
            return Err(PermitError::PermitIsNotActive);
        }
        self.state.set(id, PermitState { expires: None, last_active: st.last_active });
        Ok(())
    }

    /// Lets permits that ran out by `now` expire and recomputes the
    /// categories the active ones unblock.
    pub fn reload(&mut self, now: &Moment)
        requires
            old(self).wf(),
        ensures
            final(self).wf(),
            old(self).reloaded(*final(self), *now),
    {
        let ghost start = *self;
        clear_bits(&mut self.unblocked);
        let lookups = self.lookups;
        let n = self.state.len();
        let mut i: usize = 0;
        while i < n
            invariant
                lookups == self.lookups,
                lookups == start.lookups,
                lookups.wf(),
                n == self.state.len(),
                n == start.state.len(),
                n == lookups.config.permits.len(),
                0 <= i <= n,
                bit_len(self.unblocked) == lookups.n_categories(),
                forall|j: int| 0 <= j < i ==> self.state[j] == expired(start.state[j], *now),
                forall|j: int| i <= j < n ==> self.state[j] == start.state[j],
                forall|c: int|
                    #[trigger] bits(self.unblocked).contains(c) <==> exists|j: int, k: int|
                        0 <= j < i && self.state@[j].expires is Some && 0 <= k < lookups.permit_categories@[j].len()
                            && #[trigger] lookups.permit_categories@[j]@[k] as int == c,
            decreases n - i,
        {
            let st = self.state[i];
            if let Some(e) = st.expires {
                if e <= now.millis {
                    self.state.set(i, PermitState { expires: None, last_active: st.last_active });
                }
            }
            if self.state[i].expires.is_some() {
                let ids = &lookups.permit_categories[i];
                let mut k: usize = 0;
                while k < ids.len()
                    invariant
                        lookups == self.lookups,
                        lookups.wf(),
                        n == self.state.len(),
                        n == lookups.config.permits.len(),
                        0 <= i < n,
                        ids == lookups.permit_categories@[i as int],
                        self.state@[i as int].expires is Some,
                        forall|j: int| 0 <= j <= i ==> self.state[j] == expired(start.state[j], *now),
                        forall|j: int| i < j < n ==> self.state[j] == start.state[j],
                        0 <= k <= ids.len(),
                        bit_len(self.unblocked) == lookups.n_categories(),
                        forall|c: int|
                            #[trigger] bits(self.unblocked).contains(c) <==> (exists|j: int, m: int|
                                0 <= j < i && self.state@[j].expires is Some && 0 <= m < lookups.permit_categories@[j].len()
                                    && #[trigger] lookups.permit_categories@[j]@[m] as int == c) || (exists|m: int|
                                0 <= m < k && ids@[m] as int == c),
                    decreases ids.len() - k,
                {
                    proof {
                        assert(lookups.category.names().len() == lookups.n_categories());
                    }
                    set_bit(&mut self.unblocked, ids[k]);
                    k += 1;
                }
                proof {
                    assert forall|c: int|
                        #[trigger] bits(self.unblocked).contains(c) <==> exists|j: int, m: int|
                            0 <= j < i + 1 && self.state@[j].expires is Some && 0 <= m < lookups.permit_categories@[j].len()
                                && #[trigger] lookups.permit_categories@[j]@[m] as int == c by {
                        if exists|m: int| 0 <= m < k && ids@[m] as int == c {
                            let m = choose|m: int| 0 <= m < k && ids@[m] as int == c;
                            assert(lookups.permit_categories@[i as int]@[m] as int == c);
                        }
                    }
                }
            }
            i += 1;
        }
        proof {
            assert(bits(self.unblocked) =~= self.spec_unblocked());
        }
    }

    /// The earliest expiry of an active permit.
    pub fn when_reload(&self) -> (r: Option<u64>)
        ensures
            r == earliest_expiry(self.state@, self.state.len() as int),
    {
        let mut best: Option<u64> = None;
        let mut i: usize = 0;
        while i < self.state.len()
            invariant
                0 <= i <= self.state.len(),
                best == earliest_expiry(self.state@, i as int),
            decreases self.state.len() - i,
        {
            best = earlier(best, self.state[i].expires);
            i += 1;
        }
        best
    }

    /// The state of every permit, by name, to carry over a reload.
    pub fn save_state(self) -> (r: PermitSaveState)
        requires
            self.wf(),
        ensures
            r.state.len() == self.state.len(),
            forall|i: int|
                #![trigger r.state@[i]]
                0 <= i < r.state.len() ==> r.state@[i].0@ == self.lookups.permit.names()[i] && r.state@[i].1
                    == self.state@[i],
    {
        let mut out: Vec<(String, PermitState)> = Vec::new();
        let mut i: usize = 0;
        assert(self.lookups.permit.names().len() == self.lookups.permit.name@.len());
        while i < self.state.len()
            invariant
                self.wf(),
                self.state.len() == self.lookups.permit.name.len(),
                0 <= i <= self.state.len(),
                out.len() == i,
                forall|j: int|
                    #![trigger out@[j]]
                    0 <= j < i ==> out@[j].0@ == self.lookups.permit.names()[j] && out@[j].1 == self.state@[j],
            decreases self.state.len() - i,
        {
            let n = self.lookups.permit.name[i].clone();
            assert(n@ == self.lookups.permit.names()[i as int]);
            out.push((n, self.state[i]));
            i += 1;
        }
        PermitSaveState { state: out }
    }
}

fn find_saved(entries: &Vec<(String, PermitState)>, name: &String) -> (r: Option<PermitState>)
    ensures
        r == saved(entries@, name@),
{
    let mut i: usize = 0;
    assert(entries@.subrange(0, entries.len() as int) =~= entries@);
    while i < entries.len()
        invariant
            0 <= i <= entries.len(),
            saved(entries@, name@) == saved(entries@.subrange(i as int, entries.len() as int), name@),
        decreases entries.len() - i,
    {
        if entries[i].0 == *name {
            return Some(entries[i].1);
        }
        assert(entries@.subrange(i as int, entries.len() as int).drop_first() =~= entries@.subrange(
            i + 1,
            entries.len() as int,
        ));
        i += 1;
    }
    None
}

fn check_cooldown(now: &Moment, st: &PermitState, details: &Permit) -> (r: PermitResult)
    ensures
        r == match cooldown_error(*st, *details, *now) {
            Some(e) => Err::<(), PermitError>(e),
            None => Ok(()),
        },
{
    match (st.last_active, &details.cooldown) {
        (Some(last_active), Some(_)) => {
            let end = deadline_after(last_active, &details.cooldown).unwrap();
            if end > now.millis {
                let e = PermitError::CooldownNotFinished { left: end - now.millis };
                if st.expires.is_some() {
                    Err(PermitError::PermitExtensionRefused(Box::new(e)))
                } else {
                    Err(e)
                }
            } else {
                Ok(())
            }
        },
        _ => Ok(()),
    }
}

fn check_after_event(now: &Moment, start: u64, cooldown: &Option<Duration>) -> (r: PermitResult)
    ensures
        r == match after_event_error(*now, start, *cooldown) {
            Some(e) => Err::<(), PermitError>(e),
            None => Ok(()),
        },
{
    match cooldown {
        Some(d) => {
            let elapsed = if now.millis >= start {
                now.millis - start
            } else {
                0
            };
            let length = d.millis();
            if elapsed < length {
                Err(PermitError::CooldownAfterRestart { left: length - elapsed })
            } else {
                Ok(())
            }
        },
        None => Ok(()),
    }
}

fn check_available(now: &Moment, details: &Permit) -> (r: PermitResult)
    ensures
        r == match availability_error(*details, *now) {
            Some(e) => Err::<(), PermitError>(e),
            None => Ok(()),
        },
{
    if details.is_available(now) {
        Ok(())
    } else {
        let window = details.available.unwrap();
        Err(PermitError::AvailableBadTime { since: window.since, until: window.until })
    }
}

/// A permit cooldown of length zero after a restart or reload never refuses.
pub proof fn lemma_zero_after_event(now: Moment, start: u64, d: Duration)
    requires
        d.total_secs() == 0,
    ensures
        after_event_error(now, start, Some(d)) == after_event_error(now, start, None),
{
}

} // verus!
