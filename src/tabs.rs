use vstd::prelude::*;
use fixedbitset::FixedBitSet;
use crate::bits::{bits, bit_len, effective_blocked, should_block_mask};
use crate::dbus::{Command, DBus};
use crate::filters::Address;
use crate::lookups::Lookups;
use crate::time::{Moment, clamp_u64};

verus! {

/// A browser tab: the browser's process id and the tab's id within it.
#[derive(Clone, Copy, Debug, PartialEq, Eq, Hash, Structural)]
pub struct TabId {
    pub pid: u32,
    pub tab: i32,
}

/// A known tab, with the categories of its URL.
pub struct TabEntry {
    pub id: TabId,
    pub mask: FixedBitSet,
    pub url: Address,
}

/// Known tabs carried over a configuration reload.
pub struct TabsSaveState {
    pub tabs: Vec<(TabId, Address)>,
    pub alive: Vec<TabId>,
    pub block_all_until: Option<u64>,
}

impl TabsSaveState {
    pub fn new() -> (r: Self)
        ensures
            r.tabs@.len() == 0,
            r.alive@.len() == 0,
            r.block_all_until is None,
    {
        TabsSaveState { tabs: Vec::new(), alive: Vec::new(), block_all_until: None }
    }
}

pub open spec fn ids(entries: Seq<TabEntry>) -> Seq<TabId> {
    entries.map_values(|e: TabEntry| e.id)
}

/// The known tabs; `alive` holds those not yet asked to close.
pub struct Tabs<'a> {
    pub lookups: &'a Lookups<'a>,
    pub tabs: Vec<TabEntry>,
    pub alive: Vec<TabId>,
    pub block_all_until: Option<u64>,
}

/// The command sequence of one closure of `tab`.
pub open spec fn close_commands(tab: TabId, create_empty: bool) -> Seq<Command> {
    if create_empty {
        seq![Command::TabCreateEmpty { pid: tab.pid }, Command::TabClose { pid: tab.pid, tab: tab.tab }]
    } else {
        seq![Command::TabClose { pid: tab.pid, tab: tab.tab }]
    }
}

/// Some tab of `alive` belongs to browser `pid`.
pub open spec fn browser_alive(alive: Seq<TabId>, pid: u32) -> bool {
    exists|i: int| 0 <= i < alive.len() && (#[trigger] alive[i]).pid == pid
}

/// `alive` with `tab` taken out.
pub open spec fn without(alive: Seq<TabId>, tab: TabId) -> Seq<TabId> {
    if alive.contains(tab) {
        alive.remove(alive.index_of(tab))
    } else {
        alive
    }
}

/// The commands of closing `tab` once while `alive` are alive.
pub open spec fn first_close(alive: Seq<TabId>, tab: TabId, prevent: bool) -> Seq<Command> {
    close_commands(tab, prevent && alive.contains(tab) && !browser_alive(without(alive, tab), tab.pid))
}

/// The commands of closing the tabs of `rest` in order, each while the ones
/// after it are still alive.
pub open spec fn cascade_commands(rest: Seq<TabId>, prevent: bool) -> Seq<Command>
    decreases rest.len(),
{
    if rest.len() == 0 {
        Seq::empty()
    } else {
        first_close(rest, rest[0], prevent) + cascade_commands(rest.drop_first(), prevent)
    }
}

/// The commands and the alive tabs after closing `tab` while `alive` are
/// alive; with `cascade`, every other alive tab is closed after it.
pub open spec fn close_step(alive: Seq<TabId>, tab: TabId, prevent: bool, cascade: bool) -> (Seq<Command>, Seq<TabId>) {
    if cascade {
        (first_close(alive, tab, prevent) + cascade_commands(without(alive, tab), prevent), Seq::empty())
    } else {
        (first_close(alive, tab, prevent), without(alive, tab))
    }
}

/// The commands and the alive tabs after closing the tabs of `ts` in order.
pub open spec fn close_steps(alive: Seq<TabId>, ts: Seq<TabId>, prevent: bool, cascade: bool) -> (Seq<Command>, Seq<TabId>)
    decreases ts.len(),
{
    if ts.len() == 0 {
        (Seq::empty(), alive)
    } else {
        let before = close_steps(alive, ts.drop_last(), prevent, cascade);
        let step = close_step(before.1, ts.last(), prevent, cascade);
        (before.0 + step.0, step.1)
    }
}

impl<'a> Tabs<'a> {
    pub open spec fn keys(self) -> Seq<TabId> {
        ids(self.tabs@)
    }

    pub open spec fn wf(self) -> bool {
        &&& self.lookups.wf()
        &&& self.keys().no_duplicates()
        &&& self.alive@.no_duplicates()
        &&& forall|t: TabId| self.alive@.contains(t) ==> self.keys().contains(t)
        &&& forall|i: int|
            0 <= i < self.tabs.len() ==> bits(#[trigger] self.tabs@[i].mask) == self.lookups.url_categories(
                self.tabs@[i].url,
            ) && bit_len(self.tabs@[i].mask) == self.lookups.n_categories()
    }

    /// The categories of the known tab `t`.
    pub open spec fn mask_of(self, t: TabId) -> Set<int> {
        let i = choose|i: int| 0 <= i < self.tabs.len() && self.tabs@[i].id == t;
        bits(self.tabs@[i].mask)
    }

    pub open spec fn spec_should_block_all(self, now: Moment) -> bool {
        self.block_all_until matches Some(bu) && now.millis <= bu
    }

    /// After one closure of `tab` at `now`, `block_all_until` is extended when
    /// the configuration asks for it.
    pub open spec fn extended(self, now: Moment) -> Option<u64> {
        match self.lookups.config.close_all_after_block {
            Some(d) => Some(clamp_u64(now.millis + d.spec_millis())),
            None => self.block_all_until,
        }
    }


    /// `next` is `self` with `tab` taken out of `alive`.
    pub open spec fn alive_without(self, next: Self, tab: TabId) -> bool {
        &&& (forall|i: int| 0 <= i < self.alive.len() && self.alive@[i] == tab ==> next.alive@ == self.alive@.remove(i))
        &&& (!self.alive@.contains(tab) ==> next.alive@ == self.alive@)
    }

    /// `next` is `self` with `tab` forgotten.
    pub open spec fn removed(self, next: Self, tab: TabId) -> bool {
        &&& next.lookups == self.lookups
        &&& next.block_all_until == self.block_all_until
        &&& self.alive_without(next, tab)
        &&& (forall|i: int| 0 <= i < self.tabs.len() && self.tabs@[i].id == tab ==> next.tabs@ == self.tabs@.remove(i))
        &&& (!self.keys().contains(tab) ==> next.tabs@ == self.tabs@)
    }

    /// The exact result of closing `tab` once, without the cascade.
    pub open spec fn closed_once(self, next: Self, tab: TabId, now: Moment, old_cmds: Seq<Command>, cmds: Seq<Command>) -> bool {
        let last = self.alive@.contains(tab) && !browser_alive(next.alive@, tab.pid);
        &&& next.lookups == self.lookups
        &&& next.tabs@ == self.tabs@
        &&& self.alive_without(next, tab)
        &&& next.block_all_until == self.extended(now)
        &&& cmds == old_cmds + close_commands(tab, last && self.lookups.config.prevent_browser_close)
    }

    /// Restores saved tabs, recomputing their categories under the current
    /// configuration. A repeated id keeps its first entry.
    pub fn new(lookups: &'a Lookups<'a>, save_state: TabsSaveState) -> (r: Tabs<'a>)
        requires
            lookups.wf(),
        ensures
            r.wf(),
            r.lookups == lookups,
            r.block_all_until == save_state.block_all_until,
            forall|t: TabId| r.keys().contains(t) <==> save_state.tabs@.map_values(|e: (TabId, Address)| e.0).contains(t),
            forall|t: TabId| #[trigger] r.alive@.contains(t) <==> (save_state.alive@.contains(t) && r.keys().contains(t)),
            forall|j: int| 0 <= j < r.tabs.len() ==> save_state.tabs@.contains(((#[trigger] r.tabs@[j]).id, r.tabs@[j].url)),
    {
        let ghost saved_ids = save_state.tabs@.map_values(|e: (TabId, Address)| e.0);
        let mut tabs = Tabs { lookups, tabs: Vec::new(), alive: Vec::new(), block_all_until: save_state.block_all_until };
        let TabsSaveState { tabs: mut saved, alive: saved_alive, block_all_until: _ } = save_state;
        let total = saved.len();
        let mut i: usize = 0;
        while saved.len() > 0
            invariant
                tabs.wf(),
                tabs.lookups == lookups,
                tabs.block_all_until == save_state.block_all_until,
                tabs.alive@.len() == 0,
                total == save_state.tabs.len(),
                saved_ids == save_state.tabs@.map_values(|e: (TabId, Address)| e.0),
                i + saved.len() == total,
                saved@ == save_state.tabs@.subrange(i as int, total as int),
                forall|t: TabId| tabs.keys().contains(t) <==> saved_ids.take(i as int).contains(t),
                forall|j: int| 0 <= j < tabs.tabs.len() ==> save_state.tabs@.contains(((#[trigger] tabs.tabs@[j]).id, tabs.tabs@[j].url)),
            decreases saved.len(),
        {
            let (id, url) = saved.remove(0);
            assert(id == saved_ids[i as int]);
            assert(save_state.tabs@[i as int] == (id, url));
            assert(save_state.tabs@.contains((id, url)));
            let found = tabs.find(id);
            if let Some(k) = found {
                assert(tabs.keys().len() == tabs.tabs@.len());
                assert(tabs.keys()[k as int] == id);
                assert(tabs.keys().contains(id));
            }
            if found.is_none() {
                let mask = lookups.url_to_mask(&url);
                let ghost before = tabs.tabs@;
                tabs.tabs.push(TabEntry { id, mask, url });
                proof {
                    assert(tabs.keys() =~= ids(before).push(id));
                    lemma_push_contains(ids(before), id);
                    assert forall|j: int| 0 <= j < tabs.tabs.len() implies bits(#[trigger] tabs.tabs@[j].mask) == lookups.url_categories(
                        tabs.tabs@[j].url,
                    ) && bit_len(tabs.tabs@[j].mask) == lookups.n_categories() by {
                        if j < before.len() {
                            assert(tabs.tabs@[j] == before[j]);
                        }
                    }
                    assert forall|j: int| 0 <= j < tabs.tabs.len() implies save_state.tabs@.contains(((#[trigger] tabs.tabs@[j]).id, tabs.tabs@[j].url)) by {
                        if j < before.len() {
                            assert(tabs.tabs@[j] == before[j]);
                        }
                    }
                    assert(tabs.keys().no_duplicates()) by {
                        assert forall|a: int, b: int| 0 <= a < b < tabs.keys().len() implies tabs.keys()[a] != tabs.keys()[b] by {
                            if b == before.len() {
                                assert(ids(before)[a] == tabs.keys()[a]);
                                assert(ids(before).contains(tabs.keys()[a]));
                            } else {
                                assert(ids(before)[a] == tabs.keys()[a]);
                                assert(ids(before)[b] == tabs.keys()[b]);
                            }
                        }
                    }
                }
            }
            proof {
                assert(saved_ids.take(i + 1) =~= saved_ids.take(i as int).push(id));
                lemma_push_contains(saved_ids.take(i as int), id);
            }
            i += 1;
        }
        assert(saved_ids.take(i as int) =~= saved_ids);
        let mut i: usize = 0;
        while i < saved_alive.len()
            invariant
                tabs.wf(),
                tabs.lookups == lookups,
                tabs.block_all_until == save_state.block_all_until,
                saved_alive == save_state.alive,
                0 <= i <= saved_alive.len(),
                saved_ids == save_state.tabs@.map_values(|e: (TabId, Address)| e.0),
                forall|t: TabId| tabs.keys().contains(t) <==> saved_ids.contains(t),
                forall|j: int| 0 <= j < tabs.tabs.len() ==> save_state.tabs@.contains(((#[trigger] tabs.tabs@[j]).id, tabs.tabs@[j].url)),
                forall|t: TabId| #[trigger] tabs.alive@.contains(t) ==> saved_alive@.take(i as int).contains(t),
                forall|t: TabId| saved_alive@.take(i as int).contains(t) && #[trigger] tabs.keys().contains(t) ==> tabs.alive@.contains(t),
            decreases saved_alive.len() - i,
        {
            let id = saved_alive[i];
            let ghost before = tabs.alive@;
            let found = tabs.find(id);
            if let Some(k) = found {
                assert(tabs.keys().len() == tabs.tabs@.len());
                assert(tabs.keys()[k as int] == id);
                assert(tabs.keys().contains(id));
            }
            let found_alive = tabs.find_alive(id);
            if let Some(k) = found_alive {
                assert(tabs.alive@[k as int] == id);
                assert(tabs.alive@.contains(id));
            }
            if found.is_some() && found_alive.is_none() {
                tabs.alive.push(id);
                proof {
                    lemma_push_contains(before, id);
                    assert(tabs.alive@.no_duplicates()) by {
                        assert forall|a: int, b: int| 0 <= a < b < tabs.alive@.len() implies tabs.alive@[a] != tabs.alive@[b] by {
                            assert(before[a] == tabs.alive@[a]);
                            if b == before.len() {
                                assert(before.contains(tabs.alive@[a]));
                            } else {
                                assert(before[b] == tabs.alive@[b]);
                            }
                        }
                    }
                }
            }
            proof {
                assert(saved_alive@.take(i + 1) =~= saved_alive@.take(i as int).push(id));
                lemma_push_contains(saved_alive@.take(i as int), id);
                if found.is_some() && found_alive.is_none() {
                    lemma_push_contains(before, id);
                }
            }
            i += 1;
        }
        proof {
            assert(saved_alive@.take(i as int) =~= saved_alive@);
        }
        tabs
    }

    /// The index of the known tab `tab`.
    pub fn find(&self, tab: TabId) -> (r: Option<usize>)
        ensures
            r matches Some(i) ==> i < self.tabs.len() && self.tabs@[i as int].id == tab,
            r is None ==> !self.keys().contains(tab),
    {
        let mut i: usize = 0;
        while i < self.tabs.len()
            invariant
                0 <= i <= self.tabs.len(),
                forall|j: int| 0 <= j < i ==> self.tabs@[j].id != tab,
            decreases self.tabs.len() - i,
        {
            if self.tabs[i].id == tab {
                return Some(i);
            }
            i += 1;
        }
        proof {
            if self.keys().contains(tab) {
                let k = choose|k: int| 0 <= k < self.keys().len() && self.keys()[k] == tab;
                assert(self.tabs@[k].id == tab);
            }
        }
        None
    }

    /// The position of `tab` among the alive tabs.
    pub fn find_alive(&self, tab: TabId) -> (r: Option<usize>)
        ensures
            r matches Some(i) ==> i < self.alive.len() && self.alive@[i as int] == tab,
            r is None ==> !self.alive@.contains(tab),
    {
        let mut i: usize = 0;
        while i < self.alive.len()
            invariant
                0 <= i <= self.alive.len(),
                forall|j: int| 0 <= j < i ==> self.alive@[j] != tab,
            decreases self.alive.len() - i,
        {
            if self.alive[i] == tab {
                return Some(i);
            }
            i += 1;
        }
        None
    }

    pub fn should_block_all(&self, now: &Moment) -> (r: bool)
        ensures
            r == self.spec_should_block_all(*now),
    {
        match self.block_all_until {
            Some(bu) => now.millis <= bu,
            None => false,
        }
    }
}

impl<'a> Tabs<'a> {
    /// `next` is `self` with the unknown tab `tab` appended, and, if it was
    /// closed, taken out of `alive` again.
    pub open spec fn added(self, next: Self, tab: TabId) -> bool {
        &&& next.tabs@.len() == self.tabs@.len() + 1
        &&& next.tabs@.drop_last() == self.tabs@
        &&& next.tabs@.last().id == tab
        &&& (next.alive@ == self.alive@ || next.alive@ == self.alive@.push(tab))
    }

    fn take_alive(&mut self, tab: TabId) -> (was: bool)
        requires
            old(self).alive@.no_duplicates(),
        ensures
            was == old(self).alive@.contains(tab),
            old(self).alive_without(*final(self), tab),
            final(self).alive@.no_duplicates(),
            forall|x: TabId| #[trigger] final(self).alive@.contains(x) <==> (old(self).alive@.contains(x) && x != tab),
            final(self).lookups == old(self).lookups,
            final(self).tabs@ == old(self).tabs@,
            final(self).block_all_until == old(self).block_all_until,
    {
        match self.find_alive(tab) {
            Some(i) => {
                proof {
                    lemma_remove_unique(self.alive@, i as int);
                    assert forall|j: int| 0 <= j < self.alive.len() && self.alive@[j] == tab implies j == i by {
                        if j != i {
                            assert(self.alive@[j] != self.alive@[i as int]);
                        }
                    }
                }
                self.alive.remove(i);
                true
            },
            None => false,
        }
    }

    fn any_alive_of(&self, pid: u32) -> (r: bool)
        ensures
            r == browser_alive(self.alive@, pid),
    {
        let mut i: usize = 0;
        while i < self.alive.len()
            invariant
                0 <= i <= self.alive.len(),
                forall|j: int| 0 <= j < i ==> (#[trigger] self.alive@[j]).pid != pid,
            decreases self.alive.len() - i,
        {
            if self.alive[i].pid == pid {
                return true;
            }
            i += 1;
        }
        false
    }

    /// Closes `tab` once: it leaves `alive`, and the browser is told to close
    /// it, after being told to open a blank tab when it would be left with
    /// none.
    fn close_one(&mut self, tab: TabId, dbus: &mut DBus, now: &Moment)
        requires
            old(self).wf(),
        ensures
            final(self).wf(),
            old(self).closed_once(*final(self), tab, *now, old(dbus).commands@, final(dbus).commands@),
            forall|x: TabId| #[trigger] final(self).alive@.contains(x) <==> (old(self).alive@.contains(x) && x != tab),
    {
        let ghost cmds0 = dbus.commands@;
        let was_alive = self.take_alive(tab);
        let is_last = was_alive && !self.any_alive_of(tab.pid);
        if let Some(d) = &self.lookups.config.close_all_after_block {
            self.block_all_until = Some(now.millis.saturating_add(d.millis()));
        }
        if is_last && self.lookups.config.prevent_browser_close {
            dbus.tab_create_empty(tab.pid);
        }
        dbus.tab_close(tab);
        assert(dbus.commands@ =~= cmds0 + close_commands(tab, is_last && self.lookups.config.prevent_browser_close));
    }

    /// Closes `tab`; when the configuration says so, every other alive tab
    /// is closed after it.
    pub fn close(&mut self, tab: TabId, dbus: &mut DBus, now: &Moment)
        requires
            old(self).wf(),
        ensures
            final(self).wf(),
            final(self).lookups == old(self).lookups,
            final(self).tabs@ == old(self).tabs@,
            !final(self).alive@.contains(tab),
            forall|x: TabId| #[trigger] final(self).alive@.contains(x) ==> old(self).alive@.contains(x),
            final(dbus).commands@.contains(Command::TabClose { pid: tab.pid, tab: tab.tab }),
            !old(self).lookups.config.close_all_on_block ==> old(self).closed_once(
                *final(self),
                tab,
                *now,
                old(dbus).commands@,
                final(dbus).commands@,
            ),
            old(self).lookups.config.close_all_on_block ==> final(self).alive@.len() == 0 && forall|x: TabId|
                #[trigger] old(self).alive@.contains(x) ==> final(dbus).commands@.contains(
                    Command::TabClose { pid: x.pid, tab: x.tab },
                ),
            ({
                let step = close_step(
                    old(self).alive@,
                    tab,
                    old(self).lookups.config.prevent_browser_close,
                    old(self).lookups.config.close_all_on_block,
                );
                &&& final(dbus).commands@ == old(dbus).commands@ + step.0
                &&& final(self).alive@ == step.1
            }),
            final(self).block_all_until == old(self).extended(*now),
    {
        let ghost start = *self;
        let ghost first = dbus.commands@;
        let ghost prevent = start.lookups.config.prevent_browser_close;
        self.close_one(tab, dbus, now);
        proof {
            let c = Command::TabClose { pid: tab.pid, tab: tab.tab };
            assert(dbus.commands@.last() == c);
            assert(dbus.commands@[dbus.commands@.len() - 1] == c);
            if start.alive@.contains(tab) {
                let i = start.alive@.index_of(tab);
                assert(0 <= i < start.alive.len() && start.alive@[i] == tab);
            }
            assert(self.alive@ == without(start.alive@, tab));
            assert(dbus.commands@ == first + first_close(start.alive@, tab, prevent));
        }
        let ghost target = first + first_close(start.alive@, tab, prevent) + cascade_commands(
            without(start.alive@, tab),
            prevent,
        );
        if self.lookups.config.close_all_on_block {
            while self.alive.len() > 0
                invariant
                    self.wf(),
                    self.lookups == start.lookups,
                    self.tabs@ == start.tabs@,
                    start.lookups.config.close_all_on_block,
                    !self.alive@.contains(tab),
                    forall|x: TabId| #[trigger] self.alive@.contains(x) ==> start.alive@.contains(x),
                    dbus.commands@.contains(Command::TabClose { pid: tab.pid, tab: tab.tab }),
                    prevent == self.lookups.config.prevent_browser_close,
                    dbus.commands@ + cascade_commands(self.alive@, prevent) == target,
                    self.block_all_until == start.extended(*now),
                    forall|x: TabId|
                        #[trigger] start.alive@.contains(x) && !self.alive@.contains(x) ==> dbus.commands@.contains(
                            Command::TabClose { pid: x.pid, tab: x.tab },
                        ),
                decreases self.alive.len(),
            {
                let other = self.alive[0];
                let ghost mid = dbus.commands@;
                let ghost before = self.alive@;
                assert(before.contains(other));
                self.close_one(other, dbus, now);
                proof {
                    assert forall|x: Command| #[trigger] mid.contains(x) implies dbus.commands@.contains(x) by {
                        let k = choose|k: int| 0 <= k < mid.len() && mid[k] == x;
                        assert(dbus.commands@[k] == mid[k]);
                    }
                    let c = Command::TabClose { pid: other.pid, tab: other.tab };
                    assert(dbus.commands@[dbus.commands@.len() - 1] == c);
                    lemma_remove_unique(before, 0);
                    assert(self.alive@ == before.remove(0));
                    assert(before.remove(0) =~= before.drop_first());
                    let k = before.index_of(other);
                    assert(0 <= k < before.len() && before[k] == other);
                    if k != 0 {
                        assert(before[k] != before[0]);
                    }
                    assert(without(before, other) == self.alive@);
                    assert(dbus.commands@ == mid + first_close(before, other, prevent));
                    assert(cascade_commands(before, prevent) == first_close(before, other, prevent) + cascade_commands(
                        before.drop_first(),
                        prevent,
                    ));
                    assert(dbus.commands@ + cascade_commands(self.alive@, prevent) =~= mid + cascade_commands(before, prevent));
                }
            }
            proof {
                assert(cascade_commands(self.alive@, prevent) =~= Seq::<Command>::empty());
                assert(dbus.commands@ =~= dbus.commands@ + cascade_commands(self.alive@, prevent));
                assert(self.alive@ =~= Seq::<TabId>::empty());
            }
        } else {
            proof {
                assert(!self.alive@.contains(tab));
            }
        }
    }

    /// Whether a known tab is effectively blocked.
    pub open spec fn blocked_tab(self, blocked: Set<int>, unblocked: Set<int>) -> spec_fn(TabId) -> bool {
        |t: TabId| effective_blocked(self.mask_of(t), blocked, unblocked)
    }

    /// No alive tab is effectively blocked under `blocked` and `unblocked`.
    pub open spec fn settled(self, blocked: Set<int>, unblocked: Set<int>) -> bool {
        forall|x: TabId| #[trigger] self.alive@.contains(x) ==> !effective_blocked(self.mask_of(x), blocked, unblocked)
    }

    /// `next` and `cmds` are `self` and `old_cmds` after a rescan.
    pub open spec fn rescanned(
        self,
        next: Self,
        blocked: Set<int>,
        unblocked: Set<int>,
        old_cmds: Seq<Command>,
        cmds: Seq<Command>,
    ) -> bool {
        &&& next.lookups == self.lookups
        &&& next.tabs@ == self.tabs@
        &&& forall|x: TabId| #[trigger] next.alive@.contains(x) ==> self.alive@.contains(x)
        &&& next.settled(blocked, unblocked)
        &&& self.settled(blocked, unblocked) ==> next.alive@ == self.alive@ && cmds == old_cmds
            && next.block_all_until == self.block_all_until
    }

    /// Closes every alive tab whose categories are effectively blocked.
    pub fn rescan(&mut self, blocked: &FixedBitSet, unblocked: &FixedBitSet, dbus: &mut DBus, now: &Moment)
        requires
            old(self).wf(),
        ensures
            final(self).wf(),
            old(self).rescanned(*final(self), bits(*blocked), bits(*unblocked), old(dbus).commands@, final(dbus).commands@),
            ({
                let effect = close_steps(
                    old(self).alive@,
                    old(self).alive@.filter(old(self).blocked_tab(bits(*blocked), bits(*unblocked))),
                    old(self).lookups.config.prevent_browser_close,
                    old(self).lookups.config.close_all_on_block,
                );
                &&& final(dbus).commands@ == old(dbus).commands@ + effect.0
                &&& final(self).alive@ == effect.1
            }),
    {
        let ghost start = *self;
        let ghost pred = start.blocked_tab(bits(*blocked), bits(*unblocked));
        let ghost prevent = start.lookups.config.prevent_browser_close;
        let ghost cascade = start.lookups.config.close_all_on_block;
        let mut to_close: Vec<TabId> = Vec::new();
        let mut i: usize = 0;
        while i < self.alive.len()
            invariant
                self.wf(),
                *self == start,
                0 <= i <= self.alive.len(),
                pred == start.blocked_tab(bits(*blocked), bits(*unblocked)),
                to_close@ == self.alive@.take(i as int).filter(pred),
                forall|x: TabId|
                    #[trigger] to_close@.contains(x) <==> exists|j: int|
                        0 <= j < i && self.alive@[j] == x && effective_blocked(
                            self.mask_of(x),
                            bits(*blocked),
                            bits(*unblocked),
                        ),
            decreases self.alive.len() - i,
        {
            let t = self.alive[i];
            assert(self.alive@.contains(t));
            let j = self.find(t).unwrap();
            proof {
                self.lemma_mask_of(j as int);
            }
            let ghost before = to_close@;
            proof {
                assert(self.alive@.take(i + 1) =~= self.alive@.take(i as int).push(t));
                lemma_filter_push(self.alive@.take(i as int), t, pred);
            }
            if should_block_mask(&self.tabs[j].mask, blocked, unblocked) {
                to_close.push(t);
                proof {
                    lemma_push_contains(before, t);
                }
            }
            i += 1;
        }
        assert(self.alive@.take(i as int) =~= start.alive@);
        let mut k: usize = 0;
        while k < to_close.len()
            invariant
                to_close@ == start.alive@.filter(pred),
                pred == start.blocked_tab(bits(*blocked), bits(*unblocked)),
                self.wf(),
                self.lookups == start.lookups,
                self.tabs@ == start.tabs@,
                0 <= k <= to_close.len(),
                forall|x: TabId| #[trigger] self.alive@.contains(x) ==> start.alive@.contains(x),
                forall|j: int| 0 <= j < k ==> !self.alive@.contains(#[trigger] to_close@[j]),
                forall|x: TabId|
                    #[trigger] to_close@.contains(x) <==> exists|j: int|
                        0 <= j < start.alive.len() && start.alive@[j] == x && effective_blocked(
                            start.mask_of(x),
                            bits(*blocked),
                            bits(*unblocked),
                        ),
                k == 0 ==> *self == start && dbus.commands@ == old(dbus).commands@,
                prevent == self.lookups.config.prevent_browser_close,
                cascade == self.lookups.config.close_all_on_block,
                dbus.commands@ == old(dbus).commands@ + close_steps(start.alive@, to_close@.take(k as int), prevent, cascade).0,
                self.alive@ == close_steps(start.alive@, to_close@.take(k as int), prevent, cascade).1,
            decreases to_close.len() - k,
        {
            let ghost cmds = dbus.commands@;
            self.close(to_close[k], dbus, now);
            proof {
                let ts = to_close@.take(k + 1);
                assert(ts.drop_last() =~= to_close@.take(k as int));
                assert(ts.last() == to_close@[k as int]);
                assert(dbus.commands@ =~= old(dbus).commands@ + close_steps(start.alive@, ts, prevent, cascade).0);
            }
            k += 1;
        }
        proof {
            assert(to_close@.take(k as int) =~= to_close@);
        }
        proof {
            assert forall|x: TabId| #[trigger] self.alive@.contains(x) implies !effective_blocked(
                self.mask_of(x),
                bits(*blocked),
                bits(*unblocked),
            ) by {
                assert(start.alive@.contains(x));
                let j = choose|j: int| 0 <= j < start.alive.len() && start.alive@[j] == x;
                if effective_blocked(self.mask_of(x), bits(*blocked), bits(*unblocked)) {
                    assert(to_close@.contains(x));
                    let m = choose|m: int| 0 <= m < to_close.len() && to_close@[m] == x;
                    assert(!self.alive@.contains(to_close@[m]));
                }
            }
            if forall|x: TabId|
                #[trigger] start.alive@.contains(x) ==> !effective_blocked(
                    start.mask_of(x),
                    bits(*blocked),
                    bits(*unblocked),
                ) {
                if to_close.len() > 0 {
                    assert(to_close@.contains(to_close@[0]));
                    let j = choose|j: int|
                        0 <= j < start.alive.len() && start.alive@[j] == to_close@[0] && effective_blocked(
                            start.mask_of(to_close@[0]),
                            bits(*blocked),
                            bits(*unblocked),
                        );
                    assert(start.alive@.contains(to_close@[0]));
                }
            }
        }
    }

    /// The mask of the tab at index `j` is the mask of its id.
    pub proof fn lemma_mask_of(self, j: int)
        requires
            self.wf(),
            0 <= j < self.tabs.len(),
        ensures
            self.mask_of(self.tabs@[j].id) == bits(self.tabs@[j].mask),
    {
        let t = self.tabs@[j].id;
        let i = choose|i: int| 0 <= i < self.tabs.len() && self.tabs@[i].id == t;
        if i != j {
            assert(self.keys()[i] == self.keys()[j]);
        }
    }
}

impl<'a> Tabs<'a> {
    /// Records the URL of `tab` and closes the tab when everything is blocked
    /// for a while, or when its categories are effectively blocked.
    pub fn insert(
        &mut self,
        tab: TabId,
        url: Address,
        blocked: &FixedBitSet,
        unblocked: &FixedBitSet,
        dbus: &mut DBus,
        now: &Moment,
    )
        requires
            old(self).wf(),
        ensures
            final(self).wf(),
            final(self).lookups == old(self).lookups,
            forall|t: TabId| #[trigger] final(self).keys().contains(t) <==> (old(self).keys().contains(t) || t == tab),
            final(self).mask_of(tab) == old(self).lookups.url_categories(url),
            ({
                let should_close = old(self).spec_should_block_all(*now) || effective_blocked(
                    old(self).lookups.url_categories(url),
                    bits(*blocked),
                    bits(*unblocked),
                );
                &&& should_close ==> !final(self).alive@.contains(tab) && final(dbus).commands@.contains(
                    Command::TabClose { pid: tab.pid, tab: tab.tab },
                )
                &&& !should_close ==> final(dbus).commands@ == old(dbus).commands@ && final(self).block_all_until
                    == old(self).block_all_until && final(self).alive@ == (if old(self).keys().contains(tab) {
                    old(self).alive@
                } else {
                    old(self).alive@.push(tab)
                })
            }),
            forall|i: int|
                0 <= i < old(self).tabs.len() && old(self).tabs@[i].id == tab ==> final(self).tabs@.len()
                    == old(self).tabs@.len() && final(self).tabs@[i].id == tab && final(self).tabs@[i].url == url
                    && forall|j: int| 0 <= j < old(self).tabs.len() && j != i ==> final(self).tabs@[j] == old(self).tabs@[j],
            !old(self).keys().contains(tab) ==> final(self).tabs@.len() == old(self).tabs@.len() + 1
                && final(self).tabs@.drop_last() == old(self).tabs@ && final(self).tabs@.last().id == tab
                && final(self).tabs@.last().url == url,
            !old(self).keys().contains(tab) && (!old(self).lookups.config.close_all_on_block || !(
            old(self).spec_should_block_all(*now) || effective_blocked(
                old(self).lookups.url_categories(url),
                bits(*blocked),
                bits(*unblocked),
            ))) ==> old(self).added(*final(self), tab),
    {
        let ghost start = *self;
        let mask = self.lookups.url_to_mask(&url);
        let should_close = self.should_block_all(now) || should_block_mask(&mask, blocked, unblocked);
        let ghost entry = TabEntry { id: tab, mask, url };
        match self.find(tab) {
            Some(i) => {
                proof {
                    assert(start.keys()[i as int] == tab);
                    assert(start.keys().contains(tab));
                    assert forall|j: int| 0 <= j < start.tabs.len() && start.tabs@[j].id == tab implies j == i by {
                        if j != i {
                            assert(start.keys()[j] == start.keys()[i as int]);
                        }
                    }
                }
                self.tabs.set(i, TabEntry { id: tab, mask, url });
                proof {
                    assert(self.keys() =~= start.keys());
                    assert forall|j: int| 0 <= j < self.tabs.len() implies bits(#[trigger] self.tabs@[j].mask)
                        == self.lookups.url_categories(self.tabs@[j].url) && bit_len(self.tabs@[j].mask)
                        == self.lookups.n_categories() by {
                        if j != i {
                            assert(self.tabs@[j] == start.tabs@[j]);
                        }
                    }
                    self.lemma_mask_of(i as int);
                }
            },
            None => {
                proof {
                    assert forall|j: int| 0 <= j < start.tabs.len() implies start.tabs@[j].id != tab by {
                        assert(start.keys()[j] == start.tabs@[j].id);
                    }
                }
                self.tabs.push(TabEntry { id: tab, mask, url });
                self.alive.push(tab);
                proof {
                    assert(self.keys() =~= start.keys().push(tab));
                    lemma_push_contains(start.keys(), tab);
                    lemma_push_contains(start.alive@, tab);
                    assert(self.keys().no_duplicates()) by {
                        assert forall|a: int, b: int| 0 <= a < b < self.keys().len() implies self.keys()[a] != self.keys()[b] by {
                            assert(self.keys()[a] == start.keys()[a]);
                            if b == start.keys().len() {
                                assert(start.keys().contains(self.keys()[a]));
                            } else {
                                assert(self.keys()[b] == start.keys()[b]);
                            }
                        }
                    }
                    assert(self.alive@.no_duplicates()) by {
                        assert forall|a: int, b: int| 0 <= a < b < self.alive@.len() implies self.alive@[a] != self.alive@[b] by {
                            assert(self.alive@[a] == start.alive@[a]);
                            if b == start.alive@.len() {
                                assert(start.alive@.contains(self.alive@[a]));
                            } else {
                                assert(self.alive@[b] == start.alive@[b]);
                            }
                        }
                    }
                    assert forall|j: int| 0 <= j < self.tabs.len() implies bits(#[trigger] self.tabs@[j].mask)
                        == self.lookups.url_categories(self.tabs@[j].url) && bit_len(self.tabs@[j].mask)
                        == self.lookups.n_categories() by {
                        if j < start.tabs.len() {
                            assert(self.tabs@[j] == start.tabs@[j]);
                        }
                    }
                    self.lemma_mask_of(start.tabs.len() as int);
                    assert(self.tabs@.drop_last() =~= start.tabs@);
                }
            },
        }
        let ghost mid = *self;
        if should_close {
            self.close(tab, dbus, now);
            proof {
                assert(self.tabs@ == mid.tabs@);
                if !start.keys().contains(tab) && !start.lookups.config.close_all_on_block {
                    assert(mid.alive@ == start.alive@.push(tab));
                    assert(mid.alive@[start.alive@.len() as int] == tab);
                    assert(mid.alive@.remove(start.alive@.len() as int) =~= start.alive@);
                }
            }
        }
    }

    /// Forgets `tab`.
    pub fn remove(&mut self, tab: TabId)
        requires
            old(self).wf(),
        ensures
            final(self).wf(),
            old(self).removed(*final(self), tab),
            forall|t: TabId| #[trigger] final(self).keys().contains(t) <==> (old(self).keys().contains(t) && t != tab),
            forall|t: TabId| #[trigger] final(self).alive@.contains(t) <==> (old(self).alive@.contains(t) && t != tab),
    {
        let ghost start = *self;
        self.take_alive(tab);
        match self.find(tab) {
            Some(i) => {
                let ghost before = self.tabs@;
                proof {
                    assert(ids(before)[i as int] == tab);
                    lemma_remove_unique(ids(before), i as int);
                    assert forall|j: int| 0 <= j < before.len() && before[j].id == tab implies j == i by {
                        if j != i {
                            assert(ids(before)[j] != ids(before)[i as int]);
                        }
                    }
                }
                self.tabs.remove(i);
                proof {
                    assert(self.keys() =~= ids(before).remove(i as int));
                    assert forall|j: int| 0 <= j < self.tabs.len() implies bits(#[trigger] self.tabs@[j].mask)
                        == self.lookups.url_categories(self.tabs@[j].url) && bit_len(self.tabs@[j].mask)
                        == self.lookups.n_categories() by {
                        if j < i {
                            assert(self.tabs@[j] == before[j]);
                        } else {
                            assert(self.tabs@[j] == before[j + 1]);
                        }
                    }
                }
            },
            None => {
                proof {
                    assert forall|j: int| 0 <= j < self.tabs.len() implies self.tabs@[j].id != tab by {
                        assert(self.keys()[j] == self.tabs@[j].id);
                    }
                }
            },
        }
    }

    /// The index of some tab of browser `pid`.
    fn find_pid(&self, pid: u32) -> (r: Option<usize>)
        ensures
            r matches Some(i) ==> i < self.tabs.len() && self.tabs@[i as int].id.pid == pid,
            r is None ==> forall|j: int| 0 <= j < self.tabs.len() ==> (#[trigger] self.tabs@[j]).id.pid != pid,
    {
        let mut i: usize = 0;
        while i < self.tabs.len()
            invariant
                0 <= i <= self.tabs.len(),
                forall|j: int| 0 <= j < i ==> (#[trigger] self.tabs@[j]).id.pid != pid,
            decreases self.tabs.len() - i,
        {
            if self.tabs[i].id.pid == pid {
                return Some(i);
            }
            i += 1;
        }
        None
    }

    /// Forgets every tab of browser `pid`.
    pub fn clear(&mut self, pid: u32)
        requires
            old(self).wf(),
        ensures
            final(self).wf(),
            final(self).lookups == old(self).lookups,
            final(self).block_all_until == old(self).block_all_until,
            forall|t: TabId| #[trigger] final(self).keys().contains(t) <==> (old(self).keys().contains(t) && t.pid != pid),
            forall|t: TabId| #[trigger] final(self).alive@.contains(t) <==> (old(self).alive@.contains(t) && t.pid != pid),
            final(self).tabs@ == old(self).tabs@.filter(other_browser(pid)),
            final(self).alive@ == old(self).alive@.filter(other_browser_tab(pid)),
    {
        let ghost start = *self;
        let mut next = self.find_pid(pid);
        while next.is_some()
            invariant
                self.wf(),
                self.lookups == start.lookups,
                self.block_all_until == start.block_all_until,
                forall|t: TabId| #[trigger] self.keys().contains(t) ==> start.keys().contains(t),
                forall|t: TabId| start.keys().contains(t) && t.pid != pid ==> #[trigger] self.keys().contains(t),
                forall|t: TabId| #[trigger] self.alive@.contains(t) ==> start.alive@.contains(t),
                forall|t: TabId| start.alive@.contains(t) && t.pid != pid ==> #[trigger] self.alive@.contains(t),
                next matches Some(i) ==> i < self.tabs.len() && self.tabs@[i as int].id.pid == pid,
                next is None ==> forall|j: int| 0 <= j < self.tabs.len() ==> (#[trigger] self.tabs@[j]).id.pid != pid,
                self.tabs@.filter(other_browser(pid)) == start.tabs@.filter(other_browser(pid)),
                self.alive@.filter(other_browser_tab(pid)) == start.alive@.filter(other_browser_tab(pid)),
            decreases self.tabs.len(),
        {
            let i = next.unwrap();
            let t = self.tabs[i].id;
            let ghost before = *self;
            self.remove(t);
            assert(self.tabs@ == before.tabs@.remove(i as int));
            proof {
                lemma_filter_remove(before.tabs@, other_browser(pid), i as int);
                if before.alive@.contains(t) {
                    let j = choose|j: int| 0 <= j < before.alive.len() && before.alive@[j] == t;
                    lemma_filter_remove(before.alive@, other_browser_tab(pid), j);
                }
            }
            next = self.find_pid(pid);
        }
        proof {
            assert forall|t: TabId| #[trigger] self.keys().contains(t) implies t.pid != pid by {
                let k = choose|k: int| 0 <= k < self.keys().len() && self.keys()[k] == t;
                assert(self.tabs@[k].id == t);
            }
            assert forall|t: TabId| #[trigger] self.alive@.contains(t) implies t.pid != pid by {
                assert(self.keys().contains(t));
            }
            assert forall|k: int| 0 <= k < self.alive@.len() implies other_browser_tab(pid)(#[trigger] self.alive@[k]) by {
                assert(self.alive@.contains(self.alive@[k]));
            }
            lemma_filter_all(self.tabs@, other_browser(pid));
            lemma_filter_all(self.alive@, other_browser_tab(pid));
        }
    }

    /// The known tabs, to carry over a reload.
    pub fn save_state(self) -> (r: TabsSaveState)
        requires
            self.wf(),
        ensures
            r.tabs@.map_values(|e: (TabId, Address)| e.0) == self.keys(),
            r.tabs@.len() == self.tabs@.len(),
            forall|k: int|
                0 <= k < r.tabs@.len() ==> (#[trigger] r.tabs@[k]).0 == self.tabs@[k].id && r.tabs@[k].1 == self.tabs@[k].url,
            r.alive@ == self.alive@,
            r.block_all_until == self.block_all_until,
    {
        let Tabs { lookups: _, tabs: mut rest, alive, block_all_until } = self;
        let ghost all = rest@;
        let n = rest.len();
        let mut out: Vec<(TabId, Address)> = Vec::new();
        let mut i: usize = 0;
        while rest.len() > 0
            invariant
                i + rest.len() == n,
                n == all.len(),
                rest@ == all.subrange(i as int, n as int),
                out@.map_values(|e: (TabId, Address)| e.0) == ids(all).take(i as int),
                out@.len() == i,
                forall|k: int| 0 <= k < i ==> (#[trigger] out@[k]).0 == all[k].id && out@[k].1 == all[k].url,
            decreases rest.len(),
        {
            let e = rest.remove(0);
            assert(e == all[i as int]);
            let ghost before = out@;
            out.push((e.id, e.url));
            proof {
                assert forall|k: int| 0 <= k < i + 1 implies (#[trigger] out@[k]).0 == all[k].id && out@[k].1 == all[k].url by {
                    if k < i {
                        assert(out@[k] == before[k]);
                    }
                }
                assert(out@.map_values(|e: (TabId, Address)| e.0) =~= before.map_values(|e: (TabId, Address)| e.0).push(all[i as int].id));
                assert(ids(all).take(i + 1) =~= ids(all).take(i as int).push(all[i as int].id));
                assert(rest@ =~= all.subrange(i + 1, n as int));
            }
            i += 1;
        }
        assert(ids(all).take(i as int) =~= ids(all));
        TabsSaveState { tabs: out, alive, block_all_until }
    }
}

/// A second rescan under the same masks closes nothing.
pub proof fn lemma_rescan_twice(
    first: Tabs,
    second: Tabs,
    third: Tabs,
    blocked: Set<int>,
    unblocked: Set<int>,
    c0: Seq<Command>,
    c1: Seq<Command>,
    c2: Seq<Command>,
)
    requires
        first.rescanned(second, blocked, unblocked, c0, c1),
        second.rescanned(third, blocked, unblocked, c1, c2),
    ensures
        c2 == c1,
        third.alive@ == second.alive@,
{
}

/// Updating an unknown tab and then deleting it leaves the known and alive
/// tabs as they were, when the update set off no close cascade.
pub proof fn lemma_update_then_delete(before: Tabs, updated: Tabs, deleted: Tabs, tab: TabId)
    requires
        before.wf(),
        updated.wf(),
        !before.keys().contains(tab),
        before.added(updated, tab),
        updated.removed(deleted, tab),
    ensures
        deleted.tabs@ == before.tabs@,
        deleted.alive@ == before.alive@,
{
    let n = before.tabs.len() as int;
    assert(updated.tabs@[n].id == tab);
    assert(updated.tabs@.remove(n) =~= before.tabs@);
    assert(!before.alive@.contains(tab));
    if updated.alive@ == before.alive@.push(tab) {
        let m = before.alive.len() as int;
        assert(updated.alive@[m] == tab);
        assert(updated.alive@.remove(m) =~= before.alive@);
    }
}

/// Entries of browsers other than `pid`.
pub open spec fn other_browser(pid: u32) -> spec_fn(TabEntry) -> bool {
    |e: TabEntry| e.id.pid != pid
}

/// Tabs of browsers other than `pid`.
pub open spec fn other_browser_tab(pid: u32) -> spec_fn(TabId) -> bool {
    |t: TabId| t.pid != pid
}

/// Removing an element that the filter drops leaves the filtered sequence.
pub proof fn lemma_filter_remove<A>(s: Seq<A>, p: spec_fn(A) -> bool, i: int)
    requires
        0 <= i < s.len(),
        !p(s[i]),
    ensures
        s.remove(i).filter(p) == s.filter(p),
    decreases s.len(),
{
    reveal(Seq::filter);
    if i == s.len() - 1 {
        assert(s.remove(i) =~= s.drop_last());
    } else {
        lemma_filter_remove(s.drop_last(), p, i);
        assert(s.remove(i).drop_last() =~= s.drop_last().remove(i));
        assert(s.remove(i).last() == s.last());
    }
}

/// Filtering a sequence with one more element at its end.
pub proof fn lemma_filter_push<A>(s: Seq<A>, x: A, p: spec_fn(A) -> bool)
    ensures
        s.push(x).filter(p) == if p(x) {
            s.filter(p).push(x)
        } else {
            s.filter(p)
        },
{
    reveal(Seq::filter);
    assert(s.push(x).drop_last() =~= s);
}

/// A filter that keeps every element changes nothing.
pub proof fn lemma_filter_all<A>(s: Seq<A>, p: spec_fn(A) -> bool)
    requires
        forall|k: int| 0 <= k < s.len() ==> p(#[trigger] s[k]),
    ensures
        s.filter(p) == s,
    decreases s.len(),
{
    reveal(Seq::filter);
    if s.len() > 0 {
        lemma_filter_all(s.drop_last(), p);
        assert(s.drop_last().push(s.last()) =~= s);
    }
}

/// Pushing `x` adds exactly `x` to what a sequence contains.
pub proof fn lemma_push_contains<A>(s: Seq<A>, x: A)
    ensures
        forall|y: A| #[trigger] s.push(x).contains(y) == (s.contains(y) || y == x),
{
    assert forall|y: A| #[trigger] s.push(x).contains(y) == (s.contains(y) || y == x) by {
        if s.push(x).contains(y) {
            let k = choose|k: int| 0 <= k < s.push(x).len() && s.push(x)[k] == y;
            if k < s.len() {
                assert(s[k] == y);
            }
        }
        if s.contains(y) {
            let k = choose|k: int| 0 <= k < s.len() && s[k] == y;
            assert(s.push(x)[k] == y);
        }
        if y == x {
            assert(s.push(x)[s.len() as int] == y);
        }
    }
}

/// Removing one entry of a sequence without repeats removes exactly that value.
pub proof fn lemma_remove_unique<A>(s: Seq<A>, i: int)
    requires
        s.no_duplicates(),
        0 <= i < s.len(),
    ensures
        s.remove(i).no_duplicates(),
        forall|x: A| #[trigger] s.remove(i).contains(x) <==> (s.contains(x) && x != s[i]),
{
    let r = s.remove(i);
    assert forall|a: int, b: int| 0 <= a < b < r.len() implies r[a] != r[b] by {
        let ia = if a < i { a } else { a + 1 };
        let ib = if b < i { b } else { b + 1 };
        assert(r[a] == s[ia] && r[b] == s[ib]);
    }
    assert forall|x: A| #[trigger] r.contains(x) <==> (s.contains(x) && x != s[i]) by {
        if r.contains(x) {
            let k = choose|k: int| 0 <= k < r.len() && r[k] == x;
            let k2 = if k < i { k } else { k + 1 };
            assert(s[k2] == x);
        }
        if s.contains(x) && x != s[i] {
            let k = choose|k: int| 0 <= k < s.len() && s[k] == x;
            if k < i {
                assert(r[k] == x);
            } else {
                assert(k != i);
                assert(r[k - 1] == x);
            }
        }
    }
}

} // verus!
