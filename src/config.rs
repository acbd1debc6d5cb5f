use vstd::prelude::*;
use crate::time::{Duration, Moment, TimeRange, next_at, upper_bound_with_time};

verus! {

/// A named group of identities: web domains, subreddits, repositories, URL
/// patterns and process names.
#[derive(Debug)]
pub struct Category {
    pub name: String,
    pub domains: Option<Vec<String>>,
    pub subreddits: Option<Vec<String>>,
    pub githubs: Option<Vec<String>>,
    pub regexes: Option<Vec<String>>,
    pub processes: Option<Vec<String>>,
}

/// Blocks its categories, always or outside the `allowed` daily window.
#[derive(Debug)]
pub struct Rule {
    pub name: String,
    pub allowed: Option<TimeRange>,
    pub categories: Vec<String>,
}

/// Unblocks its categories for `length` on request.
#[derive(Debug)]
pub struct Permit {
    pub name: String,
    pub length: Duration,
    pub cooldown: Option<Duration>,
    pub available: Option<TimeRange>,
    pub categories: Vec<String>,
}

/// What is held back for a while after an event.
#[derive(Clone, Copy, Debug)]
pub struct Block {
    pub permits: Option<Duration>,
    pub rules: Option<Duration>,
}

#[derive(Clone, Copy, Debug)]
pub struct AfterEvent {
    pub block: Block,
}

/// Cooldowns after the daemon starts and after the configuration is reloaded.
#[derive(Clone, Copy, Debug)]
pub struct After {
    pub restart: AfterEvent,
    pub reload: AfterEvent,
}

#[derive(Debug)]
pub struct Config {
    pub prevent_browser_close: bool,
    pub close_all_on_block: bool,
    pub close_all_after_block: Option<Duration>,
    pub reload_delay: Option<Duration>,
    pub processes_scan_each: Duration,
    pub after: After,
    pub categories: Vec<Category>,
    pub rules: Vec<Rule>,
    pub permits: Vec<Permit>,
}

#[derive(Debug, PartialEq, Eq)]
pub enum ConfigError {
    ParseError { message: String },
    ValidationFailure { details: &'static str },
    UnknownCategory { name: String },
    InvalidRegex,
}

/// No two entries are equal.
pub open spec fn unique_names(names: Seq<Seq<char>>) -> bool {
    forall|i: int, j: int| 0 <= i < j < names.len() ==> names[i] != names[j]
}

pub open spec fn category_names(c: Seq<Category>) -> Seq<Seq<char>> {
    c.map_values(|x: Category| x.name@)
}

pub open spec fn rule_names(r: Seq<Rule>) -> Seq<Seq<char>> {
    r.map_values(|x: Rule| x.name@)
}

pub open spec fn permit_names(p: Seq<Permit>) -> Seq<Seq<char>> {
    p.map_values(|x: Permit| x.name@)
}

pub open spec fn validation(c: Config) -> Result<(), ConfigError> {
    if c.prevent_browser_close && c.close_all_after_block.is_some() {
        Err(ConfigError::ValidationFailure {
            details: "prevent-browser-close and close-all-after-block can't both be set",
        })
    } else if c.close_all_on_block && c.close_all_after_block.is_some() {
        Err(ConfigError::ValidationFailure {
            details: "close-all-on-block and close-all-after-block can't both be set",
        })
    } else if !unique_names(category_names(c.categories@)) || !unique_names(rule_names(c.rules@))
        || !unique_names(permit_names(c.permits@)) {
        Err(ConfigError::ValidationFailure { details: "blocks of the same type can't have identical names" })
    } else {
        Ok(())
    }
}

fn check_unique_names(names: &Vec<String>) -> (r: Result<(), ConfigError>)
    ensures
        r is Ok <==> unique_names(names@.map_values(|x: String| x@)),
        r matches Err(e) ==> e == (ConfigError::ValidationFailure {
            details: "blocks of the same type can't have identical names",
        }),
{
    let ghost v = names@.map_values(|x: String| x@);
    let mut i: usize = 0;
    while i < names.len()
        invariant
            v == names@.map_values(|x: String| x@),
            0 <= i <= names.len(),
            forall|a: int, b: int| 0 <= a < b < names.len() && a < i ==> v[a] != v[b],
        decreases names.len() - i,
    {
        let mut j: usize = i + 1;
        while j < names.len()
            invariant
                v == names@.map_values(|x: String| x@),
                0 <= i < j <= names.len(),
                forall|a: int, b: int| 0 <= a < b < names.len() && a < i ==> v[a] != v[b],
                forall|b: int| i < b < j ==> v[i as int] != v[b],
            decreases names.len() - j,
        {
            if names[i] == names[j] {
                assert(v[i as int] == v[j as int]);
                return Err(ConfigError::ValidationFailure {
                    details: "blocks of the same type can't have identical names",
                });
            }
            j += 1;
        }
        i += 1;
    }
    Ok(())
}

impl Config {
    /// Checks the rules a parsed configuration must meet.
    pub fn validate(&self) -> (r: Result<(), ConfigError>)
        ensures
            r == validation(*self),
    {
        if self.prevent_browser_close && self.close_all_after_block.is_some() {
            return Err(ConfigError::ValidationFailure {
                details: "prevent-browser-close and close-all-after-block can't both be set",
            });
        }
        if self.close_all_on_block && self.close_all_after_block.is_some() {
            return Err(ConfigError::ValidationFailure {
                details: "close-all-on-block and close-all-after-block can't both be set",
            });
        }
        let mut names: Vec<String> = Vec::new();
        let mut i: usize = 0;
        while i < self.categories.len()
            invariant
                0 <= i <= self.categories.len(),
                names.len() == i,
                names@.map_values(|x: String| x@) == category_names(self.categories@).take(i as int),
            decreases self.categories.len() - i,
        {
            let n = self.categories[i].name.clone();
            assert(n@ == category_names(self.categories@)[i as int]);
            let ghost before = names@;
            names.push(n);
            assert(names@ == before.push(n));
            i += 1;
            assert forall|k: int| 0 <= k < i implies #[trigger] names@[k]@ == category_names(self.categories@)[k] by {
                if k < i - 1 {
                    assert(names@[k] == before[k]);
                    assert(before.map_values(|x: String| x@)[k] == category_names(self.categories@).take(i - 1)[k]);
                }
            }
            assert(names@.map_values(|x: String| x@) =~= category_names(self.categories@).take(i as int));
        }
        assert(category_names(self.categories@).take(i as int) =~= category_names(self.categories@));
        check_unique_names(&names)?;
        let mut names: Vec<String> = Vec::new();
        let mut i: usize = 0;
        while i < self.rules.len()
            invariant
                0 <= i <= self.rules.len(),
                names.len() == i,
                names@.map_values(|x: String| x@) == rule_names(self.rules@).take(i as int),
            decreases self.rules.len() - i,
        {
            let n = self.rules[i].name.clone();
            assert(n@ == rule_names(self.rules@)[i as int]);
            let ghost before = names@;
            names.push(n);
            assert(names@ == before.push(n));
            i += 1;
            assert forall|k: int| 0 <= k < i implies #[trigger] names@[k]@ == rule_names(self.rules@)[k] by {
                if k < i - 1 {
                    assert(names@[k] == before[k]);
                    assert(before.map_values(|x: String| x@)[k] == rule_names(self.rules@).take(i - 1)[k]);
                }
            }
            assert(names@.map_values(|x: String| x@) =~= rule_names(self.rules@).take(i as int));
        }
        assert(rule_names(self.rules@).take(i as int) =~= rule_names(self.rules@));
        check_unique_names(&names)?;
        let mut names: Vec<String> = Vec::new();
        let mut i: usize = 0;
        while i < self.permits.len()
            invariant
                0 <= i <= self.permits.len(),
                names.len() == i,
                names@.map_values(|x: String| x@) == permit_names(self.permits@).take(i as int),
            decreases self.permits.len() - i,
        {
            let n = self.permits[i].name.clone();
            assert(n@ == permit_names(self.permits@)[i as int]);
            let ghost before = names@;
            names.push(n);
            assert(names@ == before.push(n));
            i += 1;
            assert forall|k: int| 0 <= k < i implies #[trigger] names@[k]@ == permit_names(self.permits@)[k] by {
                if k < i - 1 {
                    assert(names@[k] == before[k]);
                    assert(before.map_values(|x: String| x@)[k] == permit_names(self.permits@).take(i - 1)[k]);
                }
            }
            assert(names@.map_values(|x: String| x@) =~= permit_names(self.permits@).take(i as int));
        }
        assert(permit_names(self.permits@).take(i as int) =~= permit_names(self.permits@));
        check_unique_names(&names)?;
        Ok(())
    }
}

impl Rule {
    pub open spec fn spec_is_active(self, now: Moment) -> bool {
        match self.allowed {
            None => true,
            Some(w) => !w.spec_contains(now),
        }
    }

    pub open spec fn spec_next_change_time(self, now: Moment) -> Option<u64> {
        match self.allowed {
            None => None,
            Some(w) => {
                let a = next_at(now, w.since.spec_millis());
                let b = next_at(now, w.until.spec_millis());
                Some(if a <= b { a } else { b })
            },
        }
    }

    /// A rule blocks outside its allowed window, and always when it has none.
    pub fn is_active(&self, now: &Moment) -> (r: bool)
        ensures
            r == self.spec_is_active(*now),
    {
        match &self.allowed {
            None => true,
            Some(w) => !w.contains(now),
        }
    }

    /// The next instant after `now` at which the schedule may flip.
    pub fn next_change_time(&self, now: &Moment) -> (r: Option<u64>)
        ensures
            r == self.spec_next_change_time(*now),
    {
        match &self.allowed {
            None => None,
            Some(w) => {
                let a = upper_bound_with_time(now, &w.since);
                let b = upper_bound_with_time(now, &w.until);
                Some(if a <= b { a } else { b })
            },
        }
    }
}

impl Permit {
    pub open spec fn spec_is_available(self, now: Moment) -> bool {
        match self.available {
            None => true,
            Some(w) => w.spec_contains(now),
        }
    }

    pub fn is_available(&self, now: &Moment) -> (r: bool)
        ensures
            r == self.spec_is_available(*now),
    {
        match &self.available {
            None => true,
            Some(w) => w.contains(now),
        }
    }
}

/// A rule whose allowed window starts and ends at the same time blocks at
/// every instant.
pub proof fn lemma_empty_window_always_active(rule: Rule, now: Moment)
    requires
        rule.allowed matches Some(w) && w.since == w.until,
    ensures
        rule.spec_is_active(now),
{
}

/// A window whose start is later than its end wraps midnight: it holds the
/// times from its start to midnight and from midnight to its end.
pub proof fn lemma_wrapping_window(w: TimeRange, now: Moment)
    requires
        w.since.spec_millis() > w.until.spec_millis(),
    ensures
        w.spec_contains(now) == (now.spec_time_of_day() >= w.since.spec_millis() || now.spec_time_of_day()
            < w.until.spec_millis()),
{
}

} // verus!
