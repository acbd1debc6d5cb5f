use vaxtify::config::{After, AfterEvent, Block, Category, Config, ConfigError, Permit, Rule};
use vaxtify::time::Duration;

fn category(name: &str, domains: &[&str]) -> Category {
    Category {
        name: name.to_owned(),
        domains: Some(domains.iter().map(|d| d.to_string()).collect()),
        subreddits: None,
        githubs: None,
        regexes: None,
        processes: None,
    }
}

fn no_after() -> After {
    let block = Block { permits: None, rules: None };
    After { restart: AfterEvent { block }, reload: AfterEvent { block } }
}

fn config(categories: Vec<Category>, rules: Vec<Rule>, permits: Vec<Permit>) -> Config {
    Config {
        prevent_browser_close: false,
        close_all_on_block: false,
        close_all_after_block: None,
        reload_delay: None,
        processes_scan_each: Duration::from_secs(10),
        after: no_after(),
        categories,
        rules,
        permits,
    }
}

fn mins(m: u64) -> Duration {
    Duration { days: 0, hours: 0, mins: m, seconds: 0 }
}

fn assert_duplicate_error(config: &Config) {
    match config.validate() {
        Err(ConfigError::ValidationFailure { details }) => {
            assert_eq!(details, "blocks of the same type can't have identical names")
        }
        other => panic!("{:?}", other),
    }
}

#[test]
fn duplicate_categories() {
    let c = config(vec![category("example", &["example.com"]), category("example", &["example.org"])], vec![], vec![]);
    assert_duplicate_error(&c);
}

#[test]
fn duplicate_rules() {
    let rule = || Rule { name: "never".to_owned(), allowed: None, categories: vec!["example".to_owned()] };
    let c = config(vec![category("example", &["example.org"])], vec![rule(), rule()], vec![]);
    assert_duplicate_error(&c);
}

#[test]
fn duplicate_permits() {
    let permit = |m| Permit {
        name: "sometimes".to_owned(),
        length: mins(m),
        cooldown: None,
        available: None,
        categories: vec!["example".to_owned()],
    };
    let c = config(vec![category("example", &["example.com"])], vec![], vec![permit(30), permit(60)]);
    assert_duplicate_error(&c);
}

#[test]
fn forbidden_pairs() {
    let mut c = config(vec![], vec![], vec![]);
    c.prevent_browser_close = true;
    c.close_all_after_block = Some(mins(1));
    assert_eq!(
        c.validate(),
        Err(ConfigError::ValidationFailure {
            details: "prevent-browser-close and close-all-after-block can't both be set"
        })
    );
    c.prevent_browser_close = false;
    c.close_all_on_block = true;
    assert_eq!(
        c.validate(),
        Err(ConfigError::ValidationFailure { details: "close-all-on-block and close-all-after-block can't both be set" })
    );
    c.close_all_after_block = None;
    assert_eq!(c.validate(), Ok(()));
}

#[test]
fn duration_in_millis() {
    let d = Duration { days: 1, hours: 2, mins: 3, seconds: 4 };
    assert_eq!(d.millis(), ((24 + 2) * 3600 + 3 * 60 + 4) * 1000);
    assert_eq!(Duration::from_secs(10).millis(), 10_000);
    assert_eq!(Duration { days: u64::MAX, hours: 0, mins: 0, seconds: 0 }.millis(), u64::MAX);
}

#[test]
fn unknown_category_is_refused() {
    let rule = Rule { name: "r".to_owned(), allowed: None, categories: vec!["missing".to_owned()] };
    let c = config(vec![category("example", &["example.com"])], vec![rule], vec![]);
    match vaxtify::lookups::Lookups::new(&c) {
        Err(ConfigError::UnknownCategory { name }) => assert_eq!(name, "missing"),
        _ => panic!("expected an unknown category"),
    }
}

#[test]
fn invalid_regex_is_refused() {
    let mut cat = category("example", &[]);
    cat.regexes = Some(vec!["(unclosed".to_owned()]);
    let c = config(vec![cat], vec![], vec![]);
    assert!(matches!(vaxtify::lookups::Lookups::new(&c), Err(ConfigError::InvalidRegex)));
}
