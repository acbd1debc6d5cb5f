use vstd::prelude::*;
use fixedbitset::FixedBitSet;
use crate::bits::{bits, bit_len, clear_bits, new_mask, set_bit};
use crate::lookups::Lookups;
use crate::time::{Duration, Moment, clamp_u64};

verus! {

/// The categories that the picked entries of `ids` name.
pub open spec fn picked_categories(ids: Seq<Vec<usize>>, pick: Seq<bool>) -> Set<int> {
    Set::new(
        |c: int|
            exists|r: int, k: int|
                0 <= r < ids.len() && pick[r] && 0 <= k < ids[r].len() && #[trigger] ids[r]@[k] as int == c,
    )
}

/// The earlier of two optional instants.
pub open spec fn min_opt(a: Option<u64>, b: Option<u64>) -> Option<u64> {
    match (a, b) {
        (Some(x), Some(y)) => Some(if x <= y { x } else { y }),
        (Some(x), None) => Some(x),
        (None, _) => b,
    }
}

pub fn earlier(a: Option<u64>, b: Option<u64>) -> (r: Option<u64>)
    ensures
        r == min_opt(a, b),
{
    match (a, b) {
        (Some(x), Some(y)) => Some(if x <= y { x } else { y }),
        (Some(x), None) => Some(x),
        (None, _) => b,
    }
}

/// The deadline `d` after `start`, if there is a cooldown.
pub open spec fn deadline(start: u64, d: Option<Duration>) -> Option<u64> {
    match d {
        Some(d) => Some(clamp_u64(start + d.spec_millis())),
        None => None,
    }
}

pub fn deadline_after(start: u64, d: &Option<Duration>) -> (r: Option<u64>)
    ensures
        r == deadline(start, *d),
{
    match d {
        Some(d) => Some(start.saturating_add(d.millis())),
        None => None,
    }
}

/// A cooldown is over once its deadline has passed, or when there is none.
pub open spec fn cooldown_over(done: bool, until: Option<u64>, now: Moment) -> bool {
    done || match until {
        Some(d) => now.millis >= d,
        None => true,
    }
}

/// Maintains the categories that rules block.
pub struct RuleManager<'a> {
    pub lookups: &'a Lookups<'a>,
    pub blocked: FixedBitSet,
    /// Whether each rule was active at the last reload.
    pub state: Vec<bool>,
    pub restart_until: Option<u64>,
    pub reload_until: Option<u64>,
    pub restart_done: bool,
    pub reload_done: bool,
}

impl<'a> RuleManager<'a> {
    pub open spec fn wf(self) -> bool {
        &&& self.lookups.wf()
        &&& self.state.len() == self.lookups.config.rules.len()
        &&& bit_len(self.blocked) == self.lookups.n_categories()
    }

    /// Both cooldowns are over at `now`.
    pub open spec fn gate_open(self, now: Moment) -> bool {
        cooldown_over(self.restart_done, self.restart_until, now) && cooldown_over(
            self.reload_done,
            self.reload_until,
            now,
        )
    }

    /// Whether rule `r` blocks at `now`: by its schedule, or because a
    /// cooldown is not over.
    pub open spec fn active_at(self, r: int, now: Moment) -> bool {
        self.lookups.config.rules@[r].spec_is_active(now) || !self.gate_open(now)
    }

    /// The categories of the rules that were active at the last reload.
    pub open spec fn spec_blocked(self) -> Set<int> {
        picked_categories(self.lookups.rule_categories@, self.state@)
    }

    /// `next` is `self` after a reload at `now`.
    pub open spec fn reloaded(self, next: Self, now: Moment) -> bool {
        &&& next.lookups == self.lookups
        &&& next.restart_until == self.restart_until
        &&& next.reload_until == self.reload_until
        &&& next.restart_done == cooldown_over(self.restart_done, self.restart_until, now)
        &&& next.reload_done == cooldown_over(self.reload_done, self.reload_until, now)
        &&& next.state.len() == self.state.len()
        &&& forall|r: int| 0 <= r < next.state.len() ==> next.state[r] == self.active_at(r, now)
        &&& bits(next.blocked) == next.spec_blocked()
    }

    /// A second reload at the same instant changes nothing: the same rules
    /// are active and the same categories blocked.
    pub proof fn lemma_reload_twice(first: Self, second: Self, third: Self, now: Moment)
        requires
            first.reloaded(second, now),
            second.reloaded(third, now),
        ensures
            third.state@ == second.state@,
            bits(third.blocked) == bits(second.blocked),
            third.restart_done == second.restart_done,
            third.reload_done == second.reload_done,
    {
        assert(second.gate_open(now) == first.gate_open(now));
        assert forall|r: int| 0 <= r < third.state.len() implies third.state[r] == second.state[r] by {
            assert(second.active_at(r, now) == first.active_at(r, now));
        }
        assert(third.state@ =~= second.state@);
    }

    /// `restart` is when the daemon started, `reload` when this configuration
    /// was loaded; every rule is active until their cooldowns are over.
    pub fn new(lookups: &'a Lookups<'a>, restart: u64, reload: u64) -> (r: Self)
        requires
            lookups.wf(),
        ensures
            r.wf(),
            r.lookups == lookups,
            bits(r.blocked) == Set::<int>::empty(),
            forall|i: int| 0 <= i < r.state.len() ==> !r.state[i],
            r.restart_until == deadline(restart, lookups.config.after.restart.block.rules),
            r.reload_until == deadline(reload, lookups.config.after.reload.block.rules),
            !r.restart_done,
            !r.reload_done,
    {
        let blocked = new_mask(lookups.config.categories.len());
        let state = vec![false; lookups.config.rules.len()];
        RuleManager {
            lookups,
            blocked,
            state,
            restart_until: deadline_after(restart, &lookups.config.after.restart.block.rules),
            reload_until: deadline_after(reload, &lookups.config.after.reload.block.rules),
            restart_done: false,
            reload_done: false,
        }
    }

    pub fn blocked(&self) -> (r: &FixedBitSet)
        ensures
            r == &self.blocked,
    {
        &self.blocked
    }

    fn is_gate_open(&self, now: &Moment) -> (r: bool)
        ensures
            r == self.gate_open(*now),
    {
        let restart = self.restart_done || match self.restart_until {
            Some(d) => now.millis >= d,
            None => true,
        };
        let reload = self.reload_done || match self.reload_until {
            Some(d) => now.millis >= d,
            None => true,
        };
        restart && reload
    }

    /// Recomputes which rules are active and the categories they block.
    pub fn reload(&mut self, now: &Moment)
        requires
            old(self).wf(),
        ensures
            final(self).wf(),
            old(self).reloaded(*final(self), *now),
    {
        let ghost start = *self;
        let open = self.is_gate_open(now);
        self.restart_done = cooldown_over_exec(self.restart_done, self.restart_until, now);
        self.reload_done = cooldown_over_exec(self.reload_done, self.reload_until, now);
        clear_bits(&mut self.blocked);
        let lookups = self.lookups;
        let n = lookups.config.rules.len();
        let mut r: usize = 0;
        while r < n
            invariant
                lookups == self.lookups,
                lookups == start.lookups,
                lookups.wf(),
                n == lookups.config.rules.len(),
                self.state.len() == n,
                0 <= r <= n,
                bit_len(self.blocked) == lookups.n_categories(),
                open == start.gate_open(*now),
                self.restart_until == start.restart_until,
                self.reload_until == start.reload_until,
                self.restart_done == cooldown_over(start.restart_done, start.restart_until, *now),
                self.reload_done == cooldown_over(start.reload_done, start.reload_until, *now),
                forall|i: int| 0 <= i < r ==> self.state[i] == start.active_at(i, *now),
                forall|c: int|
                    #[trigger] bits(self.blocked).contains(c) <==> exists|i: int, k: int|
                        0 <= i < r && self.state@[i] && 0 <= k < lookups.rule_categories@[i].len()
                            && #[trigger] lookups.rule_categories@[i]@[k] as int == c,
            decreases n - r,
        {
            let is_active = lookups.config.rules[r].is_active(now) || !open;
            if is_active != self.state[r] {
                self.state.set(r, is_active);
            }
            if is_active {
                let ids = &lookups.rule_categories[r];
                let mut k: usize = 0;
                while k < ids.len()
                    invariant
                        lookups.wf(),
                        0 <= r < n,
                        n == lookups.config.rules.len(),
                        ids == lookups.rule_categories@[r as int],
                        self.state@[r as int],
                        lookups == self.lookups,
                        self.state.len() == n,
                        self.restart_until == start.restart_until,
                        self.reload_until == start.reload_until,
                        self.restart_done == cooldown_over(start.restart_done, start.restart_until, *now),
                        self.reload_done == cooldown_over(start.reload_done, start.reload_until, *now),
                        forall|i: int| 0 <= i <= r ==> self.state[i] == start.active_at(i, *now),
                        0 <= k <= ids.len(),
                        bit_len(self.blocked) == lookups.n_categories(),
                        forall|c: int|
                            #[trigger] bits(self.blocked).contains(c) <==> (exists|i: int, j: int|
                                0 <= i < r && self.state@[i] && 0 <= j < lookups.rule_categories@[i].len()
                                    && #[trigger] lookups.rule_categories@[i]@[j] as int == c) || (exists|j: int|
                                0 <= j < k && ids@[j] as int == c),
                    decreases ids.len() - k,
                {
                    proof {
                        assert(lookups.category.names().len() == lookups.n_categories());
                    }
                    set_bit(&mut self.blocked, ids[k]);
                    k += 1;
                }
                proof {
                    assert forall|c: int|
                        #[trigger] bits(self.blocked).contains(c) <==> exists|i: int, j: int|
                            0 <= i < r + 1 && self.state@[i] && 0 <= j < lookups.rule_categories@[i].len()
                                && #[trigger] lookups.rule_categories@[i]@[j] as int == c by {
                        if exists|j: int| 0 <= j < k && ids@[j] as int == c {
                            let j = choose|j: int| 0 <= j < k && ids@[j] as int == c;
                            assert(lookups.rule_categories@[r as int]@[j] as int == c);
                        }
                    }
                }
            }
            r += 1;
        }
        proof {
            assert(bits(self.blocked) =~= self.spec_blocked());
        }
    }

    /// The earliest next schedule edge among the first `n` rules.
    pub open spec fn next_edges(self, now: Moment, n: int) -> Option<u64>
        decreases n,
    {
        if n <= 0 {
            None
        } else {
            min_opt(self.next_edges(now, n - 1), self.lookups.config.rules@[n - 1].spec_next_change_time(now))
        }
    }

    /// Some rule's activity differs from what the last reload recorded.
    pub open spec fn stale(self, now: Moment) -> bool {
        exists|r: int| 0 <= r < self.state.len() && self.active_at(r, now) != self.state[r]
    }

    pub open spec fn spec_when_reload(self, now: Moment) -> Option<u64> {
        if self.stale(now) {
            Some(now.millis)
        } else {
            min_opt(
                min_opt(
                    self.next_edges(now, self.state.len() as int),
                    if self.restart_done { None } else { self.restart_until },
                ),
                if self.reload_done { None } else { self.reload_until },
            )
        }
    }

    /// When the rules next need a reload: now if one is out of date, else
    /// the earliest schedule edge or cooldown deadline.
    pub fn when_reload(&self, now: &Moment) -> (r: Option<u64>)
        requires
            self.wf(),
        ensures
            r == self.spec_when_reload(*now),
    {
        let open = self.is_gate_open(now);
        let rules = &self.lookups.config.rules;
        let n = rules.len();
        let mut i: usize = 0;
        while i < n
            invariant
                self.wf(),
                rules == &self.lookups.config.rules,
                n == self.state.len(),
                open == self.gate_open(*now),
                0 <= i <= n,
                forall|j: int| 0 <= j < i ==> self.active_at(j, *now) == self.state[j],
            decreases n - i,
        {
            if (rules[i].is_active(now) || !open) != self.state[i] {
                proof {
                    assert(self.active_at(i as int, *now) != self.state[i as int]);
                    assert(self.stale(*now));
                }
                return Some(now.millis);
            }
            i += 1;
        }
        assert(!self.stale(*now));
        let mut best: Option<u64> = None;
        let mut i: usize = 0;
        while i < n
            invariant
                self.wf(),
                rules == &self.lookups.config.rules,
                n == self.state.len(),
                0 <= i <= n,
                best == self.next_edges(*now, i as int),
            decreases n - i,
        {
            best = earlier(best, rules[i].next_change_time(now));
            i += 1;
        }
        if !self.restart_done {
            best = earlier(best, self.restart_until);
        } else {
            best = earlier(best, None);
        }
        if !self.reload_done {
            best = earlier(best, self.reload_until);
        } else {
            best = earlier(best, None);
        }
        best
    }
}

fn cooldown_over_exec(done: bool, until: Option<u64>, now: &Moment) -> (r: bool)
    ensures
        r == cooldown_over(done, until, *now),
{
    done || match until {
        Some(d) => now.millis >= d,
        None => true,
    }
}

/// A cooldown of length zero is over as soon as it starts.
pub proof fn lemma_zero_cooldown(start: u64, d: Duration, done: bool, now: Moment)
    requires
        d.total_secs() == 0,
        now.millis >= start,
    ensures
        cooldown_over(done, deadline(start, Some(d)), now) == cooldown_over(done, None, now),
{
}

} // verus!
