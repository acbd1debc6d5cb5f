use vaxtify::config::{After, AfterEvent, Block, Category, Config, Permit, Rule};
use vaxtify::dbus::{Command, DBus};
use vaxtify::engine::{Engine, Event};
use vaxtify::filters::Address;
use vaxtify::lookups::Lookups;
use vaxtify::permits::{PermitError, PermitSaveState};
use vaxtify::tabs::{TabId, TabsSaveState};
use vaxtify::time::{Duration, Moment, NaiveTime, TimeRange};

const MIN: u64 = 60_000;
const HOUR: u64 = 60 * MIN;

fn address(text: &str) -> Address {
    let url: url::Url = text.parse().unwrap();
    Address {
        text: url.as_str().to_owned(),
        domain: url.domain().map(str::to_owned),
        segments: url.path_segments().map(|s| s.map(str::to_owned).collect()),
    }
}

fn at(millis: u64) -> Moment {
    Moment { millis, offset_secs: 0 }
}

fn list(items: &[&str]) -> Option<Vec<String>> {
    Some(items.iter().map(|s| s.to_string()).collect())
}

fn category(name: &str) -> Category {
    Category { name: name.to_owned(), domains: None, subreddits: None, githubs: None, regexes: None, processes: None }
}

fn rule(name: &str, categories: &[&str]) -> Rule {
    Rule { name: name.to_owned(), allowed: None, categories: categories.iter().map(|s| s.to_string()).collect() }
}

fn permit(name: &str, length_mins: u64, categories: &[&str]) -> Permit {
    Permit {
        name: name.to_owned(),
        length: Duration { days: 0, hours: 0, mins: length_mins, seconds: 0 },
        cooldown: None,
        available: None,
        categories: categories.iter().map(|s| s.to_string()).collect(),
    }
}

fn config(categories: Vec<Category>, rules: Vec<Rule>, permits: Vec<Permit>) -> Config {
    let block = Block { permits: None, rules: None };
    Config {
        prevent_browser_close: false,
        close_all_on_block: false,
        close_all_after_block: None,
        reload_delay: None,
        processes_scan_each: Duration::from_secs(10),
        after: After { restart: AfterEvent { block }, reload: AfterEvent { block } },
        categories,
        rules,
        permits,
    }
}

fn fun_config() -> Config {
    let mut fun = category("fun");
    fun.subreddits = list(&["all"]);
    config(vec![fun], vec![rule("r1", &["fun"])], vec![permit("p", 5, &["fun"])])
}

fn start<'a>(lookups: &'a Lookups<'a>, now: u64, dbus: &mut DBus) -> Engine<'a> {
    let mut engine = Engine::new(lookups, TabsSaveState::new(), PermitSaveState::new(), now, &at(now));
    engine.reconcile(&at(now), dbus);
    engine
}

fn update(tab: (u32, i32), url: &str) -> Event {
    Event::TabUpdate { tab: TabId { pid: tab.0, tab: tab.1 }, url: address(url) }
}

fn close(pid: u32, tab: i32) -> Command {
    Command::TabClose { pid, tab }
}

#[test]
fn permanent_rule_blocks_reddit() {
    let c = fun_config();
    let lookups = Lookups::new(&c).ok().unwrap();
    let mut dbus = DBus::new();
    let mut engine = start(&lookups, 0, &mut dbus);
    engine.handle(update((7, 3), "https://www.reddit.com/r/All/top"), &at(1), &mut dbus);
    assert_eq!(dbus.take(), vec![close(7, 3)]);
}

#[test]
fn permit_unblocks_for_a_while() {
    let c = fun_config();
    let lookups = Lookups::new(&c).ok().unwrap();
    let mut dbus = DBus::new();
    let mut engine = start(&lookups, 0, &mut dbus);
    let (reply, _) = engine.handle(Event::PermitRequest { name: "p".to_owned() }, &at(0), &mut dbus);
    assert_eq!(reply, Some(Ok(())));
    engine.handle(update((7, 3), "https://www.reddit.com/r/all"), &at(1), &mut dbus);
    assert!(dbus.take().is_empty());
    assert_eq!(engine.when_reload(&at(1)), Some(10_000));
    engine.reconcile(&at(5 * MIN + 1), &mut dbus);
    assert_eq!(dbus.take(), vec![close(7, 3)]);
    engine.handle(update((7, 3), "https://www.reddit.com/r/all"), &at(5 * MIN + 2), &mut dbus);
    assert_eq!(dbus.take(), vec![close(7, 3)]);
}

#[test]
fn cooldown_refusal() {
    let mut c = fun_config();
    c.permits[0].cooldown = Some(Duration { days: 0, hours: 1, mins: 0, seconds: 0 });
    let lookups = Lookups::new(&c).ok().unwrap();
    let mut dbus = DBus::new();
    let mut engine = start(&lookups, 0, &mut dbus);
    let request = || Event::PermitRequest { name: "p".to_owned() };
    assert_eq!(engine.handle(request(), &at(0), &mut dbus).0, Some(Ok(())));
    let end = Event::PermitEnd { name: "p".to_owned() };
    assert_eq!(engine.handle(end, &at(MIN), &mut dbus).0, Some(Ok(())));
    assert_eq!(
        engine.handle(request(), &at(30 * MIN), &mut dbus).0,
        Some(Err(PermitError::CooldownNotFinished { left: 30 * MIN }))
    );
    assert_eq!(engine.handle(request(), &at(HOUR + 1000), &mut dbus).0, Some(Ok(())));
}

#[test]
fn extension_refused_during_cooldown() {
    let mut c = fun_config();
    c.permits[0].cooldown = Some(Duration { days: 0, hours: 1, mins: 0, seconds: 0 });
    let lookups = Lookups::new(&c).ok().unwrap();
    let mut dbus = DBus::new();
    let mut engine = start(&lookups, 0, &mut dbus);
    let request = || Event::PermitRequest { name: "p".to_owned() };
    assert_eq!(engine.handle(request(), &at(0), &mut dbus).0, Some(Ok(())));
    assert_eq!(
        engine.handle(request(), &at(MIN), &mut dbus).0,
        Some(Err(PermitError::PermitExtensionRefused(Box::new(PermitError::CooldownNotFinished { left: 59 * MIN }))))
    );
}

#[test]
fn unknown_and_inactive_permits() {
    let c = fun_config();
    let lookups = Lookups::new(&c).ok().unwrap();
    let mut dbus = DBus::new();
    let mut engine = start(&lookups, 0, &mut dbus);
    assert_eq!(
        engine.handle(Event::PermitRequest { name: "q".to_owned() }, &at(0), &mut dbus).0,
        Some(Err(PermitError::PermitDoesNotExist { name: "q".to_owned() }))
    );
    assert_eq!(
        engine.handle(Event::PermitEnd { name: "p".to_owned() }, &at(0), &mut dbus).0,
        Some(Err(PermitError::PermitIsNotActive))
    );
}

#[test]
fn cooldown_after_restart_and_availability() {
    let mut c = fun_config();
    c.after.restart.block.permits = Some(Duration { days: 0, hours: 0, mins: 10, seconds: 0 });
    c.permits[0].available = Some(TimeRange { since: NaiveTime { hour: 20, min: 0 }, until: NaiveTime { hour: 22, min: 0 } });
    let lookups = Lookups::new(&c).ok().unwrap();
    let mut dbus = DBus::new();
    let mut engine = start(&lookups, 0, &mut dbus);
    let request = || Event::PermitRequest { name: "p".to_owned() };
    assert_eq!(
        engine.handle(request(), &at(4 * MIN), &mut dbus).0,
        Some(Err(PermitError::CooldownAfterRestart { left: 6 * MIN }))
    );
    assert_eq!(
        engine.handle(request(), &at(HOUR), &mut dbus).0,
        Some(Err(PermitError::AvailableBadTime {
            since: NaiveTime { hour: 20, min: 0 },
            until: NaiveTime { hour: 22, min: 0 }
        }))
    );
    assert_eq!(engine.handle(request(), &at(21 * HOUR), &mut dbus).0, Some(Ok(())));
}

#[test]
fn close_all_on_block_cascade() {
    let mut c = config(vec![category("bad")], vec![rule("r", &["bad"])], vec![]);
    c.categories[0].domains = list(&["bad.example"]);
    c.close_all_on_block = true;
    let lookups = Lookups::new(&c).ok().unwrap();
    let mut dbus = DBus::new();
    let mut engine = start(&lookups, 0, &mut dbus);
    engine.handle(update((1, 1), "https://good.example/"), &at(1), &mut dbus);
    engine.handle(update((1, 2), "https://good.example/x"), &at(1), &mut dbus);
    engine.handle(update((1, 3), "https://good.example/y"), &at(1), &mut dbus);
    assert!(dbus.take().is_empty());
    engine.handle(update((1, 3), "https://bad.example/"), &at(2), &mut dbus);
    let sent = dbus.take();
    assert_eq!(sent[0], close(1, 3));
    assert_eq!(sent.len(), 3);
    assert!(sent.contains(&close(1, 1)) && sent.contains(&close(1, 2)));
    assert!(engine.tabs.alive.is_empty());
}

#[test]
fn prevent_browser_close_opens_blank_tab() {
    let mut c = config(vec![category("news")], vec![rule("r", &["news"])], vec![]);
    c.categories[0].domains = list(&["news.example"]);
    c.rules[0].allowed = Some(TimeRange { since: NaiveTime { hour: 0, min: 0 }, until: NaiveTime { hour: 1, min: 0 } });
    c.prevent_browser_close = true;
    let lookups = Lookups::new(&c).ok().unwrap();
    let mut dbus = DBus::new();
    let mut engine = start(&lookups, 0, &mut dbus);
    engine.handle(update((4, 9), "https://news.example/"), &at(MIN), &mut dbus);
    assert!(dbus.take().is_empty());
    assert_eq!(engine.when_reload(&at(MIN)), Some(10_000));
    assert_eq!(engine.rules.when_reload(&at(MIN)), Some(HOUR));
    engine.reconcile(&at(HOUR), &mut dbus);
    assert_eq!(dbus.take(), vec![Command::TabCreateEmpty { pid: 4 }, close(4, 9)]);
}

#[test]
fn hot_reload_keeps_active_permit() {
    let mut c = fun_config();
    c.permits[0].length = Duration { days: 0, hours: 0, mins: 10, seconds: 0 };
    let lookups = Lookups::new(&c).ok().unwrap();
    let mut dbus = DBus::new();
    let mut engine = start(&lookups, 0, &mut dbus);
    assert_eq!(engine.handle(Event::PermitRequest { name: "p".to_owned() }, &at(0), &mut dbus).0, Some(Ok(())));
    engine.schedule_reload(&at(2 * MIN), &Some(Duration::from_secs(5)));
    assert!(!engine.reload_due(&at(2 * MIN)));
    assert_eq!(engine.when_reload(&at(2 * MIN)), Some(10_000));
    assert!(engine.reload_due(&at(2 * MIN + 5000)));
    let (tabs, permits) = engine.save_state();
    let next_config = fun_config();
    let next_lookups = Lookups::new(&next_config).ok().unwrap();
    let mut next = Engine::new(&next_lookups, tabs, permits, 0, &at(2 * MIN + 5000));
    next.reconcile(&at(2 * MIN + 5000), &mut dbus);
    assert!(next.permits.unblocked().contains(0));
    assert_eq!(next.permits.state[0].expires, Some(10 * MIN));
}

#[test]
fn alive_tabs_are_known() {
    let c = fun_config();
    let lookups = Lookups::new(&c).ok().unwrap();
    let mut dbus = DBus::new();
    let mut engine = start(&lookups, 0, &mut dbus);
    engine.handle(update((1, 1), "https://example.com/"), &at(1), &mut dbus);
    engine.handle(update((1, 2), "https://www.reddit.com/r/all"), &at(1), &mut dbus);
    engine.handle(update((2, 1), "https://example.com/"), &at(1), &mut dbus);
    engine.handle(Event::TabDeleteAll { pid: 1 }, &at(2), &mut dbus);
    for t in &engine.tabs.alive {
        assert!(engine.tabs.tabs.iter().any(|e| e.id == *t));
    }
    assert_eq!(engine.tabs.alive, vec![TabId { pid: 2, tab: 1 }]);
    assert_eq!(engine.tabs.tabs.len(), 1);
}

#[test]
fn blocked_and_unblocked_follow_rules_and_permits() {
    let mut a = category("a");
    a.domains = list(&["a.example"]);
    let mut b = category("b");
    b.domains = list(&["b.example"]);
    let c = config(vec![a, b], vec![rule("r", &["a", "b"])], vec![permit("p", 5, &["b"])]);
    let lookups = Lookups::new(&c).ok().unwrap();
    let mut dbus = DBus::new();
    let mut engine = start(&lookups, 0, &mut dbus);
    assert!(engine.rules.blocked().contains(0) && engine.rules.blocked().contains(1));
    assert_eq!(engine.permits.unblocked().count_ones(..), 0);
    engine.handle(Event::PermitRequest { name: "p".to_owned() }, &at(0), &mut dbus);
    assert!(!engine.permits.unblocked().contains(0) && engine.permits.unblocked().contains(1));
    engine.handle(update((1, 1), "https://b.example/"), &at(1), &mut dbus);
    engine.handle(update((1, 2), "https://a.example/"), &at(1), &mut dbus);
    assert_eq!(dbus.take(), vec![close(1, 2)]);
    assert_eq!(engine.tabs.alive, vec![TabId { pid: 1, tab: 1 }]);
}

#[test]
fn expired_permits_are_cleared() {
    let c = fun_config();
    let lookups = Lookups::new(&c).ok().unwrap();
    let mut dbus = DBus::new();
    let mut engine = start(&lookups, 0, &mut dbus);
    engine.handle(Event::PermitRequest { name: "p".to_owned() }, &at(0), &mut dbus);
    assert_eq!(engine.permits.when_reload(), Some(5 * MIN));
    engine.reconcile(&at(5 * MIN - 1), &mut dbus);
    assert_eq!(engine.permits.state[0].expires, Some(5 * MIN));
    engine.reconcile(&at(5 * MIN), &mut dbus);
    assert_eq!(engine.permits.state[0].expires, None);
    assert_eq!(engine.permits.when_reload(), None);
}

#[test]
fn url_mask_is_deterministic() {
    let mut fun = category("fun");
    fun.subreddits = list(&["all"]);
    let mut code = category("code");
    code.githubs = list(&["unneon/icie"]);
    code.regexes = list(&[r"example\.org"]);
    let mut site = category("site");
    site.domains = list(&["github.com"]);
    let c = config(vec![fun, code, site], vec![], vec![]);
    let lookups = Lookups::new(&c).ok().unwrap();
    let one = lookups.url_to_mask(&address("https://github.com/unneon/icie/issues"));
    let two = lookups.url_to_mask(&address("https://github.com/unneon/icie/issues"));
    assert_eq!(one, two);
    assert_eq!(one.ones().collect::<Vec<_>>(), vec![1, 2]);
    let regex = lookups.url_to_mask(&address("https://example.org/a"));
    assert_eq!(regex.ones().collect::<Vec<_>>(), vec![1]);
    let sub = lookups.url_to_mask(&address("https://www.reddit.com/r/ALL/"));
    assert_eq!(sub.ones().collect::<Vec<_>>(), vec![0]);
    assert_eq!(lookups.url_to_mask(&address("https://example.com/")).count_ones(..), 0);
}

#[test]
fn reconcile_twice_is_quiet() {
    let c = fun_config();
    let lookups = Lookups::new(&c).ok().unwrap();
    let mut dbus = DBus::new();
    let mut engine = start(&lookups, 0, &mut dbus);
    engine.handle(Event::PermitRequest { name: "p".to_owned() }, &at(0), &mut dbus);
    engine.handle(update((7, 3), "https://www.reddit.com/r/all"), &at(1), &mut dbus);
    engine.reconcile(&at(5 * MIN + 1), &mut dbus);
    let blocked = engine.rules.blocked().clone();
    let unblocked = engine.permits.unblocked().clone();
    assert_eq!(dbus.take(), vec![close(7, 3)]);
    engine.reconcile(&at(5 * MIN + 1), &mut dbus);
    assert_eq!(engine.rules.blocked(), &blocked);
    assert_eq!(engine.permits.unblocked(), &unblocked);
    assert!(dbus.take().is_empty());
}

#[test]
fn update_then_delete_restores_tabs() {
    let c = fun_config();
    let lookups = Lookups::new(&c).ok().unwrap();
    let mut dbus = DBus::new();
    let mut engine = start(&lookups, 0, &mut dbus);
    engine.handle(update((1, 1), "https://example.com/"), &at(1), &mut dbus);
    let tabs: Vec<TabId> = engine.tabs.tabs.iter().map(|e| e.id).collect();
    let alive = engine.tabs.alive.clone();
    engine.handle(update((1, 2), "https://www.reddit.com/r/all"), &at(2), &mut dbus);
    engine.handle(Event::TabDelete { tab: TabId { pid: 1, tab: 2 } }, &at(3), &mut dbus);
    assert_eq!(engine.tabs.tabs.iter().map(|e| e.id).collect::<Vec<_>>(), tabs);
    assert_eq!(engine.tabs.alive, alive);
}

#[test]
fn deactivate_keeps_last_active() {
    let c = fun_config();
    let lookups = Lookups::new(&c).ok().unwrap();
    let mut dbus = DBus::new();
    let mut engine = start(&lookups, 0, &mut dbus);
    engine.handle(Event::PermitRequest { name: "p".to_owned() }, &at(1234), &mut dbus);
    engine.handle(Event::PermitEnd { name: "p".to_owned() }, &at(2000), &mut dbus);
    assert_eq!(engine.permits.state[0].last_active, Some(1234));
    assert_eq!(engine.permits.state[0].expires, None);
}

#[test]
fn equal_window_always_active() {
    let mut r = rule("r", &[]);
    r.allowed = Some(TimeRange { since: NaiveTime { hour: 8, min: 0 }, until: NaiveTime { hour: 8, min: 0 } });
    for hour in 0..24 {
        assert!(r.is_active(&at(hour * HOUR)));
    }
    assert_eq!(r.next_change_time(&at(HOUR)), Some(8 * HOUR));
}

#[test]
fn window_wraps_midnight() {
    let w = TimeRange { since: NaiveTime { hour: 23, min: 30 }, until: NaiveTime { hour: 1, min: 0 } };
    assert!(w.contains(&at(23 * HOUR + 45 * MIN)));
    assert!(w.contains(&at(30 * MIN)));
    assert!(!w.contains(&at(HOUR)));
    assert!(!w.contains(&at(12 * HOUR)));
    let local = Moment { millis: 22 * HOUR + 45 * MIN, offset_secs: 3600 };
    assert_eq!(local.time_of_day(), 23 * HOUR + 45 * MIN);
    assert!(w.contains(&local));
    let before_epoch_day = Moment { millis: 30 * MIN, offset_secs: -3600 };
    assert_eq!(before_epoch_day.time_of_day(), 23 * HOUR + 30 * MIN);
}

#[test]
fn zero_restart_cooldown() {
    let mut c = fun_config();
    c.rules[0].allowed = Some(TimeRange { since: NaiveTime { hour: 0, min: 0 }, until: NaiveTime { hour: 12, min: 0 } });
    c.after.restart.block.rules = Some(Duration::from_secs(0));
    let lookups = Lookups::new(&c).ok().unwrap();
    let mut dbus = DBus::new();
    let engine = start(&lookups, 0, &mut dbus);
    assert!(!engine.rules.blocked().contains(0));
    let mut slow = fun_config();
    slow.rules[0].allowed = Some(TimeRange { since: NaiveTime { hour: 0, min: 0 }, until: NaiveTime { hour: 12, min: 0 } });
    slow.after.restart.block.rules = Some(Duration::from_secs(60));
    let slow_lookups = Lookups::new(&slow).ok().unwrap();
    let mut slow_engine = start(&slow_lookups, 0, &mut dbus);
    assert!(slow_engine.rules.blocked().contains(0));
    assert_eq!(slow_engine.rules.when_reload(&at(0)), Some(MIN));
    slow_engine.reconcile(&at(MIN), &mut dbus);
    assert!(!slow_engine.rules.blocked().contains(0));
}

#[test]
fn processes_to_kill() {
    let mut games = category("games");
    games.processes = list(&["steam", "lutris"]);
    let mut chat = category("chat");
    chat.processes = list(&["discord", "steam"]);
    let c = config(vec![games, chat], vec![rule("r", &["games"])], vec![permit("p", 5, &["chat"])]);
    let lookups = Lookups::new(&c).ok().unwrap();
    assert_eq!(lookups.process, vec!["steam".to_owned(), "lutris".to_owned(), "discord".to_owned()]);
    let mut dbus = DBus::new();
    let mut engine = start(&lookups, 0, &mut dbus);
    let kill = engine.reconcile(&at(1), &mut dbus);
    assert_eq!(kill, vec!["steam".to_owned(), "lutris".to_owned()]);
    let (_, kill) = engine.handle(Event::PermitRequest { name: "p".to_owned() }, &at(2), &mut dbus);
    assert_eq!(kill, vec!["lutris".to_owned()]);
    assert_eq!(engine.processes.when_reload(), Some(2 + 10_000));
}

#[test]
fn block_all_after_block() {
    let mut c = fun_config();
    c.close_all_after_block = Some(Duration::from_secs(60));
    let lookups = Lookups::new(&c).ok().unwrap();
    let mut dbus = DBus::new();
    let mut engine = start(&lookups, 0, &mut dbus);
    engine.handle(update((1, 1), "https://www.reddit.com/r/all"), &at(1000), &mut dbus);
    assert_eq!(engine.tabs.block_all_until, Some(61_000));
    engine.handle(update((1, 2), "https://example.com/"), &at(2000), &mut dbus);
    assert_eq!(dbus.take(), vec![close(1, 1), close(1, 2)]);
    assert_eq!(engine.tabs.block_all_until, Some(62_000));
    engine.handle(update((1, 3), "https://example.com/"), &at(62_001), &mut dbus);
    assert!(dbus.take().is_empty());
}

#[test]
fn refresh_signal() {
    let mut dbus = DBus::new();
    dbus.refresh();
    dbus.tab_create_empty(3);
    dbus.tab_close(TabId { pid: 3, tab: 4 });
    assert_eq!(dbus.take(), vec![Command::Refresh {}, Command::TabCreateEmpty { pid: 3 }, close(3, 4)]);
    assert!(dbus.commands.is_empty());
}
