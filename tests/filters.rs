use vaxtify::activity::Activity;
use vaxtify::filters::{extract_github, extract_subreddit, Address};

fn address(text: &str) -> Address {
    let url: url::Url = text.parse().unwrap();
    Address {
        text: url.as_str().to_owned(),
        domain: url.domain().map(str::to_owned),
        segments: url.path_segments().map(|s| s.map(str::to_owned).collect()),
    }
}

#[test]
fn reddit_lowercase() {
    let url = address("https://www.reddit.com/r/PrOgRaMmInG/");
    assert_eq!(extract_subreddit(&url).as_deref(), Some("programming"));
}

#[test]
fn filters_github() {
    let url = address("https://github.com/pustaczek/icie");
    assert_eq!(extract_github(&url).as_deref(), Some("pustaczek/icie"));
}

#[test]
fn reddit_needs_subreddit_path() {
    assert_eq!(extract_subreddit(&address("https://www.reddit.com/user/x")), None);
    assert_eq!(extract_subreddit(&address("https://old.reddit.com/r/rust")), None);
    assert_eq!(extract_github(&address("https://github.com/pustaczek")), None);
}

#[test]
fn reddit_uppercase() {
    let url = address("https://www.reddit.com/r/PrOgRaMmInG/");
    assert_eq!(Activity::from_url(&url, true), Some(Activity::Reddit { subreddit: "programming".to_owned() }));
}

#[test]
fn reddit_ignore() {
    let url = address("https://www.reddit.com/r/PrOgRaMmInG/");
    assert_eq!(Activity::from_url(&url, false), Some(Activity::Internet { domain: "www.reddit.com".to_owned() }));
}

#[test]
fn activity_github() {
    let url = address("https://github.com/pustaczek/icie");
    assert_eq!(Activity::from_url(&url, true), Some(Activity::Github { repo: "pustaczek/icie".to_owned() }));
}

#[test]
fn activity_example() {
    assert_eq!(Activity::example("example.com"), Activity::Internet { domain: "example.com".to_owned() });
}
