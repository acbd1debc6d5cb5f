use vstd::prelude::*;
use crate::filters::{Address, extract_github, extract_subreddit, spec_github, spec_subreddit};

verus! {

/// What a tab is used for.
#[derive(Clone, Debug, PartialEq, Eq, Hash)]
pub enum Activity {
    Github { repo: String },
    Internet { domain: String },
    Reddit { subreddit: String },
}

/// The view of an activity: its kind and its text.
pub open spec fn activity_view(a: Activity) -> (int, Seq<char>) {
    match a {
        Activity::Github { repo } => (0, repo@),
        Activity::Internet { domain } => (1, domain@),
        Activity::Reddit { subreddit } => (2, subreddit@),
    }
}

/// A subreddit when `reddit` is set, else a repository, else the domain.
pub open spec fn spec_from_url(url: Address, reddit: bool) -> Option<(int, Seq<char>)> {
    if reddit && spec_subreddit(url) is Some {
        Some((2, spec_subreddit(url).unwrap()))
    } else if spec_github(url) is Some {
        Some((0, spec_github(url).unwrap()))
    } else if url.domain is Some {
        Some((1, url.domain.unwrap()@))
    } else {
        None
    }
}

impl Activity {
    pub fn from_url(url: &Address, reddit: bool) -> (r: Option<Activity>)
        ensures
            r matches Some(a) ==> spec_from_url(*url, reddit) == Some(activity_view(a)),
            r is None ==> spec_from_url(*url, reddit) is None,
    {
        if reddit {
            if let Some(subreddit) = extract_subreddit(url) {
                return Some(Activity::Reddit { subreddit });
            }
        }
        if let Some(repo) = extract_github(url) {
            return Some(Activity::Github { repo });
        }
        match &url.domain {
            Some(d) => Some(Activity::Internet { domain: d.clone() }),
            None => None,
        }
    }

    pub fn example(name: &str) -> (r: Activity)
        ensures
            activity_view(r) == (1int, name@),
    {
        Activity::Internet { domain: name.to_owned() }
    }
}

} // verus!
