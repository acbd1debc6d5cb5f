use vstd::prelude::*;
use vstd::string::StringExecFns;

verus! {

/// What the engine reads of a URL: its text, its domain (absent for an IP
/// address or a URL without a host) and its path segments (absent for a URL
/// that cannot be a base, such as `data:` URLs).
#[derive(Debug)]
pub struct Address {
    pub text: String,
    pub domain: Option<String>,
    pub segments: Option<Vec<String>>,
}

/// What `str::to_lowercase` returns.
pub uninterp spec fn lower_of(s: Seq<char>) -> Seq<char>;

/// Relies on str::to_lowercase: the result depends on the characters alone.
#[verifier::external_body]
fn lowercase(s: &str) -> (r: String)
    ensures
        r@ == lower_of(s@),
{
    s.to_lowercase()
}

pub open spec fn has_domain(url: Address, d: Seq<char>) -> bool {
    url.domain matches Some(x) && x@ == d
}

pub open spec fn segment(url: Address, i: int) -> Seq<char> {
    url.segments.unwrap()@[i]@
}

pub open spec fn segment_count(url: Address) -> int {
    match url.segments {
        Some(s) => s.len() as int,
        None => 0,
    }
}

/// The lowercased subreddit of a `www.reddit.com/r/<name>` URL.
pub open spec fn spec_subreddit(url: Address) -> Option<Seq<char>> {
    if has_domain(url, "www.reddit.com"@) && segment_count(url) >= 2 && segment(url, 0) == "r"@ {
        Some(lower_of(segment(url, 1)))
    } else {
        None
    }
}

/// The `owner/repo` of a `github.com/<owner>/<repo>` URL.
pub open spec fn spec_github(url: Address) -> Option<Seq<char>> {
    if has_domain(url, "github.com"@) && segment_count(url) >= 2 {
        Some(segment(url, 0) + "/"@ + segment(url, 1))
    } else {
        None
    }
}

fn is_domain(url: &Address, d: &str) -> (r: bool)
    ensures
        r == has_domain(*url, d@),
{
    match &url.domain {
        Some(x) => *x == d.to_owned(),
        None => false,
    }
}

pub fn extract_subreddit(url: &Address) -> (r: Option<String>)
    ensures
        r matches Some(s) ==> spec_subreddit(*url) == Some(s@),
        r is None ==> spec_subreddit(*url) is None,
{
    proof {
        reveal_strlit("www.reddit.com");
        reveal_strlit("r");
    }
    if !is_domain(url, "www.reddit.com") {
        return None;
    }
    match &url.segments {
        Some(segments) => {
            if segments.len() >= 2 && segments[0] == "r".to_owned() {
                Some(lowercase(segments[1].as_str()))
            } else {
                None
            }
        },
        None => None,
    }
}

pub fn extract_github(url: &Address) -> (r: Option<String>)
    ensures
        r matches Some(s) ==> spec_github(*url) == Some(s@),
        r is None ==> spec_github(*url) is None,
{
    proof {
        reveal_strlit("github.com");
        reveal_strlit("/");
    }
    if !is_domain(url, "github.com") {
        return None;
    }
    match &url.segments {
        Some(segments) => {
            if segments.len() >= 2 {
                let mut repo = segments[0].clone();
                repo.append("/");
                repo.append(segments[1].as_str());
                Some(repo)
            } else {
                None
            }
        },
        None => None,
    }
}

} // verus!
