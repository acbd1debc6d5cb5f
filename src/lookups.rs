use vstd::prelude::*;
use fixedbitset::FixedBitSet;
use regex::RegexSet;
use crate::bits::{bits, bit_len, new_mask, set_bit};
use crate::config::{Category, Config, ConfigError, Permit, category_names, permit_names};
use crate::filters::{Address, extract_github, extract_subreddit, spec_github, spec_subreddit};

verus! {

#[verifier::external_type_specification]
#[verifier::external_body]
pub struct ExRegexSet(RegexSet);

#[verifier::external_type_specification]
#[verifier::external_body]
pub struct ExRegexError(regex::Error);

/// The patterns a regex set was built from, in order.
pub uninterp spec fn regex_patterns(s: RegexSet) -> Seq<Seq<char>>;

/// Whether `RegexSet::new` accepts every pattern.
pub uninterp spec fn regexes_valid(p: Seq<Seq<char>>) -> bool;

/// The indices of the patterns of a set that match somewhere in `text`.
pub uninterp spec fn regex_matches(s: RegexSet, text: Seq<char>) -> Set<int>;

pub open spec fn texts(v: Seq<String>) -> Seq<Seq<char>> {
    v.map_values(|x: String| x@)
}

/// Relies on RegexSet::new: it fails exactly on an invalid pattern, accepts
/// an empty list, and keeps the patterns in order.
#[verifier::external_body]
fn compile_regexes(p: &Vec<String>) -> (r: Result<RegexSet, regex::Error>)
    ensures
        (r is Ok) == regexes_valid(texts(p@)),
        p@.len() == 0 ==> r is Ok,
        r matches Ok(s) ==> regex_patterns(s) == texts(p@),
{
    RegexSet::new(p)
}

/// Relies on RegexSet::matches: the indices of the patterns that match, each
/// an index into the set.
#[verifier::external_body]
fn matching_patterns(s: &RegexSet, text: &str) -> (r: Vec<usize>)
    ensures
        forall|k: int| 0 <= k < r.len() ==> (r[k] as int) < regex_patterns(*s).len(),
        forall|i: int|
            #[trigger] regex_matches(*s, text@).contains(i) <==> exists|k: int|
                0 <= k < r.len() && r[k] as int == i,
{
    s.matches(text).into_iter().collect()
}

/// Whether `list` holds the text `s`.
pub open spec fn lists(list: Seq<String>, s: Seq<char>) -> bool {
    exists|k: int| 0 <= k < list.len() && (#[trigger] list[k])@ == s
}

pub open spec fn opt_has(list: Option<Vec<String>>, s: Seq<char>) -> bool {
    list matches Some(v) && lists(v@, s)
}

pub open spec fn opt_list(list: Option<Vec<String>>) -> Seq<String> {
    match list {
        Some(v) => v@,
        None => Seq::empty(),
    }
}

fn list_has(list: &Vec<String>, s: &String) -> (r: bool)
    ensures
        r == lists(list@, s@),
{
    let mut i: usize = 0;
    while i < list.len()
        invariant
            0 <= i <= list.len(),
            forall|k: int| 0 <= k < i ==> (#[trigger] list@[k])@ != s@,
        decreases list.len() - i,
    {
        if list[i] == *s {
            return true;
        }
        i += 1;
    }
    false
}

fn opt_list_has(list: &Option<Vec<String>>, s: &String) -> (r: bool)
    ensures
        r == opt_has(*list, s@),
{
    match list {
        Some(v) => list_has(v, s),
        None => false,
    }
}

/// Names and details of one kind of configuration block, indexed by id.
pub struct Table<'a, T> {
    pub name: Vec<String>,
    pub details: Vec<&'a T>,
}

/// The first index whose name is `s`.
pub open spec fn first_index(names: Seq<Seq<char>>, s: Seq<char>, i: int) -> bool {
    0 <= i < names.len() && names[i] == s && forall|j: int| 0 <= j < i ==> names[j] != s
}

impl<'a, T> Table<'a, T> {
    pub open spec fn names(self) -> Seq<Seq<char>> {
        texts(self.name@)
    }

    pub fn new() -> (r: Self)
        ensures
            r.name@.len() == 0,
            r.details@.len() == 0,
    {
        Table { name: Vec::new(), details: Vec::new() }
    }

    /// Appends an entry and returns its id.
    pub fn insert(&mut self, name: String, details: &'a T) -> (r: usize)
        requires
            old(self).name.len() < usize::MAX,
        ensures
            r == old(self).name.len(),
            final(self).name@ == old(self).name@.push(name),
            final(self).details@ == old(self).details@.push(details),
    {
        let index = self.name.len();
        self.details.push(details);
        self.name.push(name);
        index
    }

    pub fn len(&self) -> (r: usize)
        ensures
            r == self.name.len(),
    {
        self.name.len()
    }

    /// The id of the first entry called `name`.
    pub fn id(&self, name: &str) -> (r: Option<usize>)
        ensures
            r matches Some(i) ==> first_index(self.names(), name@, i as int),
            r is None ==> !self.names().contains(name@),
    {
        let target = name.to_owned();
        let mut i: usize = 0;
        while i < self.name.len()
            invariant
                0 <= i <= self.name.len(),
                target@ == name@,
                forall|j: int| 0 <= j < i ==> self.names()[j] != name@,
            decreases self.name.len() - i,
        {
            if self.name[i] == target {
                return Some(i);
            }
            i += 1;
        }
        proof {
            if self.names().contains(name@) {
                let k = choose|k: int| 0 <= k < self.names().len() && self.names()[k] == name@;
                assert(self.names()[k] == name@);
            }
        }
        None
    }
}

/// The regex patterns of the first `n` categories, in order.
pub open spec fn patterns_upto(cats: Seq<Category>, n: int) -> Seq<Seq<char>>
    decreases n,
{
    if n <= 0 {
        Seq::empty()
    } else {
        patterns_upto(cats, n - 1) + texts(opt_list(cats[n - 1].regexes))
    }
}

/// For each pattern of `patterns_upto(cats, n)`, its category.
pub open spec fn pattern_owners_upto(cats: Seq<Category>, n: int) -> Seq<usize>
    decreases n,
{
    if n <= 0 {
        Seq::empty()
    } else {
        pattern_owners_upto(cats, n - 1) + Seq::new(
            opt_list(cats[n - 1].regexes).len(),
            |k: int| (n - 1) as usize,
        )
    }
}

/// Precomputed indices over one configuration.
pub struct Lookups<'a> {
    pub config: &'a Config,
    pub category: Table<'a, Category>,
    pub permit: Table<'a, Permit>,
    /// For each rule, the ids of its categories.
    pub rule_categories: Vec<Vec<usize>>,
    /// For each permit, the ids of its categories.
    pub permit_categories: Vec<Vec<usize>>,
    /// Every process name some category lists, each once.
    pub process: Vec<String>,
    /// For each pattern of `regex_set`, its category.
    pub regex_category: Vec<usize>,
    pub regex_set: RegexSet,
}

/// Every name in `names` is that of some category.
pub open spec fn all_known(cat_names: Seq<Seq<char>>, names: Seq<String>) -> bool {
    forall|k: int| 0 <= k < names.len() ==> cat_names.contains((#[trigger] names[k])@)
}

/// Every category that a rule or permit names exists.
pub open spec fn categories_resolve(c: Config) -> bool {
    &&& forall|r: int|
        0 <= r < c.rules.len() ==> all_known(category_names(c.categories@), (#[trigger] c.rules@[r]).categories@)
    &&& forall|p: int|
        0 <= p < c.permits.len() ==> all_known(
            category_names(c.categories@),
            (#[trigger] c.permits@[p]).categories@,
        )
}

/// `ids` are the ids of the categories called `names`.
pub open spec fn resolved(cat_names: Seq<Seq<char>>, names: Seq<String>, ids: Seq<usize>) -> bool {
    &&& ids.len() == names.len()
    &&& forall|k: int| 0 <= k < ids.len() ==> first_index(cat_names, names[k]@, #[trigger] ids[k] as int)
}

/// Some category lists the process `p`.
pub open spec fn is_declared_process(cats: Seq<Category>, p: Seq<char>) -> bool {
    exists|c: int| 0 <= c < cats.len() && opt_has(#[trigger] cats[c].processes, p)
}

impl<'a> Lookups<'a> {
    pub open spec fn n_categories(self) -> nat {
        self.config.categories@.len()
    }

    pub open spec fn wf(self) -> bool {
        &&& self.category.names() == category_names(self.config.categories@)
        &&& self.category.details@.len() == self.config.categories@.len()
        &&& forall|i: int| 0 <= i < self.config.categories@.len() ==> *(#[trigger] self.category.details@[i]) == self.config.categories@[i]
        &&& self.permit.names() == permit_names(self.config.permits@)
        &&& self.permit.details@.len() == self.config.permits@.len()
        &&& forall|i: int| 0 <= i < self.config.permits@.len() ==> *(#[trigger] self.permit.details@[i]) == self.config.permits@[i]
        &&& self.rule_categories.len() == self.config.rules.len()
        &&& forall|r: int|
            0 <= r < self.rule_categories.len() ==> resolved(
                self.category.names(),
                self.config.rules@[r].categories@,
                (#[trigger] self.rule_categories@[r])@,
            )
        &&& self.permit_categories.len() == self.config.permits.len()
        &&& forall|p: int|
            0 <= p < self.permit_categories.len() ==> resolved(
                self.category.names(),
                self.config.permits@[p].categories@,
                (#[trigger] self.permit_categories@[p])@,
            )
        &&& forall|i: int, j: int|
            0 <= i < j < self.process.len() ==> self.process@[i]@ != self.process@[j]@
        &&& forall|p: Seq<char>|
            #![trigger is_declared_process(self.config.categories@, p)]
            is_declared_process(self.config.categories@, p) <==> lists(self.process@, p)
        &&& regex_patterns(self.regex_set) == patterns_upto(
            self.config.categories@,
            self.config.categories.len() as int,
        )
        &&& self.regex_category@ == pattern_owners_upto(
            self.config.categories@,
            self.config.categories.len() as int,
        )
    }

    /// The categories that a URL belongs to.
    pub open spec fn url_categories(self, url: Address) -> Set<int> {
        Set::new(
            |c: int|
                0 <= c < self.n_categories() && {
                    let cat = self.config.categories@[c];
                    ||| url.domain matches Some(d) && opt_has(cat.domains, d@)
                    ||| spec_subreddit(url) matches Some(s) && opt_has(cat.subreddits, s)
                    ||| spec_github(url) matches Some(g) && opt_has(cat.githubs, g)
                    ||| exists|i: int|
                        #![trigger regex_matches(self.regex_set, url.text@).contains(i)]
                        regex_matches(self.regex_set, url.text@).contains(i)
                            && self.regex_category@[i] as int == c
                },
        )
    }

    /// The categories that list a process name.
    pub open spec fn process_categories(self, name: Seq<char>) -> Set<int> {
        Set::new(
            |c: int| 0 <= c < self.n_categories() && opt_has(self.config.categories@[c].processes, name),
        )
    }

    pub fn url_to_mask(&self, url: &Address) -> (mask: FixedBitSet)
        requires
            self.wf(),
        ensures
            bits(mask) == self.url_categories(*url),
            bit_len(mask) == self.n_categories(),
    {
        let n = self.category.len();
        proof {
            assert(self.category.names().len() == self.category.name@.len());
        }
        let mut mask = new_mask(n);
        let subreddit = extract_subreddit(url);
        let github = extract_github(url);
        let matches = matching_patterns(&self.regex_set, url.text.as_str());
        let ghost hits = regex_matches(self.regex_set, url.text@);
        proof {
            assert(self.regex_category@.len() == regex_patterns(self.regex_set).len()) by {
                lemma_patterns_owners(self.config.categories@, self.config.categories.len() as int);
            }
        }
        let mut c: usize = 0;
        while c < n
            invariant
                self.wf(),
                n == self.n_categories(),
                0 <= c <= n,
                bit_len(mask) == n,
                subreddit matches Some(s) ==> spec_subreddit(*url) == Some(s@),
                subreddit is None ==> spec_subreddit(*url) is None,
                github matches Some(s) ==> spec_github(*url) == Some(s@),
                github is None ==> spec_github(*url) is None,
                forall|x: int|
                    #[trigger] bits(mask).contains(x) <==> 0 <= x < c && {
                        let cat = self.config.categories@[x];
                        ||| url.domain matches Some(d) && opt_has(cat.domains, d@)
                        ||| spec_subreddit(*url) matches Some(s) && opt_has(cat.subreddits, s)
                        ||| spec_github(*url) matches Some(g) && opt_has(cat.githubs, g)
                    },
            decreases n - c,
        {
            let cat = &self.config.categories[c];
            let mut hit = false;
            if let Some(d) = &url.domain {
                hit = opt_list_has(&cat.domains, d);
            }
            if !hit {
                if let Some(s) = &subreddit {
                    hit = opt_list_has(&cat.subreddits, s);
                }
            }
            if !hit {
                if let Some(g) = &github {
                    hit = opt_list_has(&cat.githubs, g);
                }
            }
            if hit {
                set_bit(&mut mask, c);
            }
            c += 1;
        }
        let mut k: usize = 0;
        while k < matches.len()
            invariant
                self.wf(),
                n == self.n_categories(),
                bit_len(mask) == n,
                0 <= k <= matches.len(),
                self.regex_category@.len() == regex_patterns(self.regex_set).len(),
                hits == regex_matches(self.regex_set, url.text@),
                forall|j: int| 0 <= j < matches.len() ==> (matches[j] as int) < regex_patterns(self.regex_set).len(),
                forall|i: int| #[trigger] hits.contains(i) <==> exists|j: int| 0 <= j < matches.len() && matches[j] as int == i,
                forall|x: int|
                    #[trigger] bits(mask).contains(x) <==> (0 <= x < n && {
                        let cat = self.config.categories@[x];
                        ||| url.domain matches Some(d) && opt_has(cat.domains, d@)
                        ||| spec_subreddit(*url) matches Some(s) && opt_has(cat.subreddits, s)
                        ||| spec_github(*url) matches Some(g) && opt_has(cat.githubs, g)
                    }) || exists|j: int| 0 <= j < k && self.regex_category@[matches[j] as int] as int == x,
            decreases matches.len() - k,
        {
            let owner = self.regex_category[matches[k]];
            proof {
                lemma_owner_bound(self.config.categories@, self.config.categories.len() as int, matches[k as int] as int);
            }
            set_bit(&mut mask, owner);
            k += 1;
        }
        proof {
            assert forall|x: int| #[trigger] bits(mask).contains(x) == self.url_categories(*url).contains(x) by {
                if exists|j: int| 0 <= j < k && self.regex_category@[matches[j] as int] as int == x {
                    let j = choose|j: int| 0 <= j < k && self.regex_category@[matches[j] as int] as int == x;
                    let i = matches[j] as int;
                    assert(hits.contains(i));
                    lemma_owner_bound(self.config.categories@, self.config.categories.len() as int, i);
                }
                if 0 <= x < n {
                    let cat = self.config.categories@[x];
                    if exists|i: int|
                        #![trigger regex_matches(self.regex_set, url.text@).contains(i)]
                        regex_matches(self.regex_set, url.text@).contains(i)
                            && self.regex_category@[i] as int == x {
                        let i = choose|i: int|
                            #![trigger regex_matches(self.regex_set, url.text@).contains(i)]
                            regex_matches(self.regex_set, url.text@).contains(i)
                                && self.regex_category@[i] as int == x;
                        assert(hits.contains(i));
                        let j = choose|j: int| 0 <= j < matches.len() && matches[j] as int == i;
                        assert(self.regex_category@[matches[j] as int] as int == x);
                    }
                }
            }
            assert(bits(mask) =~= self.url_categories(*url));
        }
        mask
    }
}


/// Some category among the first `n` lists the process `p`.
pub open spec fn declared_upto(cats: Seq<Category>, n: int, p: Seq<char>) -> bool {
    exists|c: int| 0 <= c < n && opt_has(#[trigger] cats[c].processes, p)
}

fn resolve_names(table: &Table<Category>, names: &Vec<String>) -> (r: Result<Vec<usize>, ConfigError>)
    ensures
        (r is Ok) == all_known(table.names(), names@),
        r matches Ok(ids) ==> resolved(table.names(), names@, ids@),
        r matches Err(e) ==> e is UnknownCategory,
{
    let mut ids: Vec<usize> = Vec::new();
    let mut k: usize = 0;
    while k < names.len()
        invariant
            0 <= k <= names.len(),
            ids.len() == k,
            forall|j: int| 0 <= j < k ==> first_index(table.names(), names@[j]@, #[trigger] ids@[j] as int),
            forall|j: int| 0 <= j < k ==> table.names().contains((#[trigger] names@[j])@),
        decreases names.len() - k,
    {
        match table.id(names[k].as_str()) {
            Some(id) => {
                ids.push(id);
            },
            None => {
                return Err(ConfigError::UnknownCategory { name: names[k].clone() });
            },
        }
        k += 1;
    }
    Ok(ids)
}

impl<'a> Lookups<'a> {
    pub fn new(config: &'a Config) -> (r: Result<Lookups<'a>, ConfigError>)
        ensures
            r matches Ok(l) ==> l.wf() && l.config == config,
            (r is Ok) == (categories_resolve(*config) && regexes_valid(
                patterns_upto(config.categories@, config.categories.len() as int),
            )),
            r matches Err(e) ==> (if categories_resolve(*config) {
                e is InvalidRegex
            } else {
                e is UnknownCategory
            }),
    {
        let mut category: Table<Category> = Table::new();
        let mut i: usize = 0;
        while i < config.categories.len()
            invariant
                0 <= i <= config.categories.len(),
                category.name.len() == i,
                category.names() == category_names(config.categories@).take(i as int),
                category.details@.len() == i,
                forall|j: int| 0 <= j < i ==> *(#[trigger] category.details@[j]) == config.categories@[j],
            decreases config.categories.len() - i,
        {
            let ghost before = category.names();
            category.insert(config.categories[i].name.clone(), &config.categories[i]);
            assert(category.names() =~= before.push(config.categories@[i as int].name@));
            i += 1;
            assert(category.names() =~= category_names(config.categories@).take(i as int));
        }
        assert(category.names() =~= category_names(config.categories@));
        let mut permit: Table<Permit> = Table::new();
        let mut i: usize = 0;
        while i < config.permits.len()
            invariant
                0 <= i <= config.permits.len(),
                permit.name.len() == i,
                permit.names() == permit_names(config.permits@).take(i as int),
                permit.details@.len() == i,
                forall|j: int| 0 <= j < i ==> *(#[trigger] permit.details@[j]) == config.permits@[j],
            decreases config.permits.len() - i,
        {
            let ghost before = permit.names();
            permit.insert(config.permits[i].name.clone(), &config.permits[i]);
            assert(permit.names() =~= before.push(config.permits@[i as int].name@));
            i += 1;
            assert(permit.names() =~= permit_names(config.permits@).take(i as int));
        }
        assert(permit.names() =~= permit_names(config.permits@));
        let mut rule_categories: Vec<Vec<usize>> = Vec::new();
        let mut i: usize = 0;
        while i < config.rules.len()
            invariant
                0 <= i <= config.rules.len(),
                category.names() == category_names(config.categories@),
                rule_categories.len() == i,
                forall|r: int|
                    0 <= r < i ==> resolved(category.names(), config.rules@[r].categories@, (#[trigger] rule_categories@[r])@),
                forall|r: int| 0 <= r < i ==> all_known(category.names(), (#[trigger] config.rules@[r]).categories@),
            decreases config.rules.len() - i,
        {
            let ids = match resolve_names(&category, &config.rules[i].categories) {
                Ok(ids) => ids,
                Err(e) => {
                    proof {
                        assert(!all_known(category_names(config.categories@), config.rules@[i as int].categories@));
                        lemma_unresolved_rules(*config, i as int);
                    }
                    return Err(e);
                },
            };
            rule_categories.push(ids);
            i += 1;
        }
        let mut permit_categories: Vec<Vec<usize>> = Vec::new();
        let mut i: usize = 0;
        while i < config.permits.len()
            invariant
                0 <= i <= config.permits.len(),
                category.names() == category_names(config.categories@),
                forall|r: int| 0 <= r < config.rules.len() ==> all_known(category.names(), (#[trigger] config.rules@[r]).categories@),
                permit_categories.len() == i,
                forall|p: int|
                    0 <= p < i ==> resolved(category.names(), config.permits@[p].categories@, (#[trigger] permit_categories@[p])@),
                forall|p: int| 0 <= p < i ==> all_known(category.names(), (#[trigger] config.permits@[p]).categories@),
            decreases config.permits.len() - i,
        {
            let ids = match resolve_names(&category, &config.permits[i].categories) {
                Ok(ids) => ids,
                Err(e) => {
                    proof {
                        assert(!all_known(category_names(config.categories@), config.permits@[i as int].categories@));
                        lemma_unresolved_permits(*config, i as int);
                    }
                    return Err(e);
                },
            };
            permit_categories.push(ids);
            i += 1;
        }
        let mut patterns: Vec<String> = Vec::new();
        let mut owners: Vec<usize> = Vec::new();
        let mut process: Vec<String> = Vec::new();
        let mut c: usize = 0;
        while c < config.categories.len()
            invariant
                0 <= c <= config.categories.len(),
                texts(patterns@) == patterns_upto(config.categories@, c as int),
                owners@ == pattern_owners_upto(config.categories@, c as int),
                forall|i: int, j: int| 0 <= i < j < process.len() ==> process@[i]@ != process@[j]@,
                forall|p: Seq<char>| #[trigger] lists(process@, p) <==> declared_upto(config.categories@, c as int, p),
            decreases config.categories.len() - c,
        {
            let cat = &config.categories[c];
            if let Some(list) = &cat.regexes {
                let mut k: usize = 0;
                while k < list.len()
                    invariant
                        0 <= c < config.categories.len(),
                        cat == config.categories@[c as int],
                        cat.regexes == Some(*list),
                        0 <= k <= list.len(),
                        texts(patterns@) == patterns_upto(config.categories@, c as int) + texts(list@).take(k as int),
                        owners@ == pattern_owners_upto(config.categories@, c as int) + Seq::new(k as nat, |j: int| c),
                    decreases list.len() - k,
                {
                    let ghost pb = patterns@;
                    let ghost ob = owners@;
                    patterns.push(list[k].clone());
                    owners.push(c);
                    k += 1;
                    assert(texts(patterns@) =~= patterns_upto(config.categories@, c as int) + texts(list@).take(k as int)) by {
                        assert(patterns@ == pb.push(list@[k - 1]));
                        assert(texts(pb) == patterns_upto(config.categories@, c as int) + texts(list@).take(k - 1));
                        assert(texts(patterns@) =~= texts(pb).push(list@[k - 1]@));
                        assert(texts(list@).take(k as int) =~= texts(list@).take(k - 1).push(list@[k - 1]@));
                    }
                    assert(owners@ =~= pattern_owners_upto(config.categories@, c as int) + Seq::new(k as nat, |j: int| c));
                }
                assert(texts(list@).take(k as int) =~= texts(list@));
                assert(owners@ =~= pattern_owners_upto(config.categories@, c + 1));
                assert(texts(patterns@) =~= patterns_upto(config.categories@, c + 1));
            } else {
                assert(owners@ =~= pattern_owners_upto(config.categories@, c + 1));
                assert(texts(patterns@) =~= patterns_upto(config.categories@, c + 1));
            }
            if let Some(list) = &cat.processes {
                let mut k: usize = 0;
                while k < list.len()
                    invariant
                        0 <= c < config.categories.len(),
                        cat == config.categories@[c as int],
                        cat.processes == Some(*list),
                        0 <= k <= list.len(),
                        forall|i: int, j: int| 0 <= i < j < process.len() ==> process@[i]@ != process@[j]@,
                        forall|p: Seq<char>|
                            #[trigger] lists(process@, p) <==> (declared_upto(config.categories@, c as int, p) || lists(list@.take(k as int), p)),
                    decreases list.len() - k,
                {
                    let ghost before = process@;
                    let ghost taken = list@.take(k as int);
                    if !list_has(&process, &list[k]) {
                        process.push(list[k].clone());
                        assert forall|i: int, j: int| 0 <= i < j < process.len() implies process@[i]@ != process@[j]@ by {
                            assert(process@[i] == before[i]);
                            if j < before.len() {
                                assert(process@[j] == before[j]);
                            } else {
                                assert(process@[j]@ == list@[k as int]@);
                                assert(!lists(before, list@[k as int]@));
                                assert(0 <= i < before.len() && before[i]@ != list@[k as int]@);
                            }
                        }
                        assert forall|p: Seq<char>| #[trigger] lists(process@, p) == (lists(before, p) || p == list@[k as int]@) by {
                            if lists(process@, p) {
                                let j = choose|j: int| 0 <= j < process@.len() && (#[trigger] process@[j])@ == p;
                                if j < before.len() {
                                    assert(before[j] == process@[j]);
                                }
                            }
                            if lists(before, p) {
                                let j = choose|j: int| 0 <= j < before.len() && (#[trigger] before[j])@ == p;
                                assert(process@[j] == before[j]);
                            }
                            if p == list@[k as int]@ {
                                assert(process@[before.len() as int] == list@[k as int]);
                            }
                        }
                    } else {
                        assert(lists(process@, list@[k as int]@));
                    }
                    let ghost grew = process@;
                    assert(forall|p: Seq<char>| #[trigger] lists(grew, p) == (lists(before, p) || p == list@[k as int]@));
                    k += 1;
                    assert forall|p: Seq<char>| #[trigger] lists(list@.take(k as int), p) == (lists(taken, p) || p == list@[k - 1]@) by {
                        if lists(list@.take(k as int), p) {
                            let j = choose|j: int| 0 <= j < k && (#[trigger] list@.take(k as int)[j])@ == p;
                            if j < k - 1 {
                                assert(taken[j] == list@.take(k as int)[j]);
                            }
                        }
                        if lists(taken, p) {
                            let j = choose|j: int| 0 <= j < taken.len() && (#[trigger] taken[j])@ == p;
                            assert(list@.take(k as int)[j] == taken[j]);
                        }
                        if p == list@[k - 1]@ {
                            assert(list@.take(k as int)[k - 1] == list@[k - 1]);
                        }
                    }
                    assert forall|p: Seq<char>|
                        #[trigger] lists(process@, p) <==> (declared_upto(config.categories@, c as int, p) || lists(list@.take(k as int), p)) by {
                        assert(lists(grew, p) == (lists(before, p) || p == list@[k - 1]@));
                        assert(lists(before, p) <==> (declared_upto(config.categories@, c as int, p) || lists(taken, p)));
                        assert(lists(list@.take(k as int), p) == (lists(taken, p) || p == list@[k - 1]@));
                        if p == list@[k - 1]@ {
                            assert(lists(grew, p));
                        }
                    }
                }
                assert(list@.take(k as int) =~= list@);
            }
            assert forall|p: Seq<char>| declared_upto(config.categories@, c + 1, p) == (declared_upto(config.categories@, c as int, p) || opt_has(config.categories@[c as int].processes, p)) by {
                if declared_upto(config.categories@, c + 1, p) {
                    let w = choose|w: int| 0 <= w < c + 1 && opt_has(#[trigger] config.categories@[w].processes, p);
                }
                if opt_has(config.categories@[c as int].processes, p) {
                    assert(0 <= c < c + 1 && opt_has(config.categories@[c as int].processes, p));
                }
            }
            c += 1;
        }
        let regex_set = match compile_regexes(&patterns) {
            Ok(s) => s,
            Err(_) => {
                return Err(ConfigError::InvalidRegex);
            },
        };
        proof {
            assert forall|p: Seq<char>|
                #![trigger is_declared_process(config.categories@, p)]
                is_declared_process(config.categories@, p) <==> lists(process@, p) by {
                assert(declared_upto(config.categories@, config.categories.len() as int, p) == is_declared_process(config.categories@, p));
            }
        }
        Ok(Lookups {
            config,
            category,
            permit,
            rule_categories,
            permit_categories,
            process,
            regex_category: owners,
            regex_set,
        })
    }

    pub fn process_to_mask(&self, process: &str) -> (mask: FixedBitSet)
        requires
            self.wf(),
        ensures
            bits(mask) == self.process_categories(process@),
            bit_len(mask) == self.n_categories(),
    {
        let name = process.to_owned();
        let n = self.config.categories.len();
        let mut mask = new_mask(n);
        let mut c: usize = 0;
        while c < n
            invariant
                n == self.n_categories(),
                name@ == process@,
                0 <= c <= n,
                bit_len(mask) == n,
                forall|x: int|
                    #[trigger] bits(mask).contains(x) <==> 0 <= x < c && opt_has(self.config.categories@[x].processes, process@),
            decreases n - c,
        {
            if opt_list_has(&self.config.categories[c].processes, &name) {
                set_bit(&mut mask, c);
            }
            c += 1;
        }
        assert(bits(mask) =~= self.process_categories(process@));
        mask
    }
}

/// Two addresses that read the same.
pub open spec fn same_address(a: Address, b: Address) -> bool {
    &&& a.text@ == b.text@
    &&& (a.domain is Some) == (b.domain is Some)
    &&& (a.domain matches Some(x) ==> x@ == b.domain.unwrap()@)
    &&& (a.segments is Some) == (b.segments is Some)
    &&& (a.segments matches Some(x) ==> texts(x@) == texts(b.segments.unwrap()@))
}

/// The categories of a URL depend on what it reads alone.
pub proof fn lemma_url_categories_deterministic(l: Lookups, a: Address, b: Address)
    requires
        same_address(a, b),
    ensures
        l.url_categories(a) == l.url_categories(b),
{
    if let Some(x) = a.segments {
        let y = b.segments.unwrap();
        assert(x@.len() == texts(x@).len() && y@.len() == texts(y@).len());
        if x@.len() >= 2 {
            assert(texts(x@)[0] == texts(y@)[0] && texts(x@)[1] == texts(y@)[1]);
        }
    }
    assert(crate::filters::spec_subreddit(a) == crate::filters::spec_subreddit(b));
    assert(crate::filters::spec_github(a) == crate::filters::spec_github(b));
    assert(l.url_categories(a) =~= l.url_categories(b));
}

proof fn lemma_unresolved_rules(c: Config, i: int)
    requires
        0 <= i < c.rules.len(),
        !all_known(category_names(c.categories@), c.rules@[i].categories@),
    ensures
        !categories_resolve(c),
{
}

proof fn lemma_unresolved_permits(c: Config, i: int)
    requires
        0 <= i < c.permits.len(),
        !all_known(category_names(c.categories@), c.permits@[i].categories@),
    ensures
        !categories_resolve(c),
{
}

proof fn lemma_patterns_owners(cats: Seq<Category>, n: int)
    requires
        0 <= n <= cats.len(),
    ensures
        patterns_upto(cats, n).len() == pattern_owners_upto(cats, n).len(),
        forall|i: int| 0 <= i < pattern_owners_upto(cats, n).len() ==> (#[trigger] pattern_owners_upto(cats, n)[i] as int) < n,
    decreases n,
{
    if n > 0 {
        lemma_patterns_owners(cats, n - 1);
        let a = pattern_owners_upto(cats, n - 1);
        let b = Seq::new(opt_list(cats[n - 1].regexes).len(), |k: int| (n - 1) as usize);
        assert forall|i: int| 0 <= i < pattern_owners_upto(cats, n).len() implies (#[trigger] pattern_owners_upto(cats, n)[i] as int) < n by {
            if i < a.len() {
                assert(pattern_owners_upto(cats, n)[i] == a[i]);
            } else {
                assert(pattern_owners_upto(cats, n)[i] == b[i - a.len()]);
            }
        }
    }
}

proof fn lemma_owner_bound(cats: Seq<Category>, n: int, i: int)
    requires
        0 <= n <= cats.len(),
        0 <= i < patterns_upto(cats, n).len(),
    ensures
        0 <= i < pattern_owners_upto(cats, n).len(),
        (pattern_owners_upto(cats, n)[i] as int) < n,
{
    lemma_patterns_owners(cats, n);
}

} // verus!
