use polite_crawler::robots::{RobotsError, RobotsFetch, RobotsPolicy};

const RULES: &str = "User-agent: *\nDisallow: /private\nCrawl-delay: 3\n";

fn oversized_rule() -> String {
    let mut txt = String::from("User-agent: *\nDisallow: /");
    for _ in 0..20000 {
        txt.push_str("a*b");
    }
    txt.push_str("$\n");
    txt
}

#[test]
fn policy_denies_disallowed_paths() {
    let policy = RobotsPolicy::parse("Crawler", RULES.as_bytes()).unwrap();
    assert!(!policy.allow("https://a.example/private"));
    assert!(!policy.allow("/private/deeper"));
    assert!(policy.allow("https://a.example/"));
    assert!(policy.allow("/public"));
}

#[test]
fn policy_reports_crawl_delay_in_seconds() {
    let policy = RobotsPolicy::parse("Crawler", RULES.as_bytes()).unwrap();
    assert_eq!(policy.crawl_delay(), Some(3));
    let none = RobotsPolicy::parse("Crawler", b"User-agent: *\nDisallow:\n").unwrap();
    assert_eq!(none.crawl_delay(), None);
}

#[test]
fn fractional_crawl_delay_is_cut_to_whole_seconds() {
    let policy = RobotsPolicy::parse("Crawler", b"User-agent: *\nCrawl-delay: 2.9\n").unwrap();
    assert_eq!(policy.crawl_delay(), Some(2));
}

#[test]
fn policy_is_keyed_by_agent() {
    let txt = b"User-agent: Crawler\nDisallow: /a\n\nUser-agent: *\nDisallow: /b\n";
    let ours = RobotsPolicy::parse("Crawler", txt).unwrap();
    assert!(!ours.allow("/a"));
    assert!(ours.allow("/b"));
    let other = RobotsPolicy::parse("SomebodyElse", txt).unwrap();
    assert!(other.allow("/a"));
    assert!(!other.allow("/b"));
}

#[test]
fn empty_document_permits_everything() {
    let policy = RobotsPolicy::parse("Crawler", b"").unwrap();
    assert!(policy.allow("/anything"));
    assert_eq!(policy.crawl_delay(), None);
}

#[test]
fn malformed_document_is_an_error() {
    let txt = oversized_rule();
    assert_eq!(
        RobotsPolicy::parse("Crawler", txt.as_bytes()).err(),
        Some(RobotsError::Malformed)
    );
}

#[test]
fn unreachable_document_means_no_policy() {
    let policy = RobotsPolicy::fetched("Crawler", RobotsFetch::Unreachable).unwrap();
    assert!(policy.is_none());
}

#[test]
fn retrieved_document_becomes_the_policy() {
    let policy = RobotsPolicy::fetched("Crawler", RobotsFetch::Body(RULES.to_string()))
        .unwrap()
        .unwrap();
    assert!(!policy.allow("/private"));
    assert_eq!(policy.crawl_delay(), Some(3));
}

#[test]
fn retrieved_but_malformed_document_is_an_error() {
    let fetched = RobotsFetch::Body(oversized_rule());
    assert_eq!(
        RobotsPolicy::fetched("Crawler", fetched).err(),
        Some(RobotsError::Malformed)
    );
}
