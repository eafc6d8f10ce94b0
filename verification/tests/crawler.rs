use polite_crawler::crawler::{CrawlError, Crawler, Progress};
use polite_crawler::feedback::{BrowserMode, CrawlFeedback, CrawlingCallback, Page};
use polite_crawler::link::Link;
use polite_crawler::queue::{FollowUp, Step};
use polite_crawler::robots::RobotsFetch;
use std::cell::RefCell;

/// A small web: the robots document of each origin (`None`: the request
/// fails), and the links on each page.
struct Web {
    robots: Vec<(&'static str, Option<&'static str>)>,
    pages: Vec<(&'static str, Vec<&'static str>)>,
}

impl Web {
    fn robots(&self, url: &str) -> RobotsFetch {
        for (at, body) in &self.robots {
            if *at == url {
                return match body {
                    Some(text) => RobotsFetch::Body(text.to_string()),
                    None => RobotsFetch::Unreachable,
                };
            }
        }
        RobotsFetch::Unreachable
    }

    fn links(&self, url: &str) -> Vec<Link> {
        for (at, links) in &self.pages {
            if *at == url {
                return links.iter().map(|l| Link::parse(l).unwrap()).collect();
            }
        }
        Vec::new()
    }
}

/// What a run did, in order.
#[derive(Default)]
struct Log {
    robots_requests: Vec<String>,
    visits: Vec<(String, u64)>,
    origins: Vec<String>,
}

fn route_all(
    crawler: &mut Crawler,
    web: &Web,
    log: &mut Log,
    links: &Vec<Link>,
) -> Result<(), CrawlError> {
    let mut at = 0;
    loop {
        at = crawler.route(links, at);
        if at == links.len() {
            return Ok(());
        }
        open(crawler, web, log, &links[at])?;
    }
}

fn open(crawler: &mut Crawler, web: &Web, log: &mut Log, link: &Link) -> Result<(), CrawlError> {
    let robots = link.robots_txt().map_err(|_| CrawlError::Origin)?;
    log.robots_requests.push(robots.as_str().to_string());
    if crawler.open_queue(link, web.robots(robots.as_str()))? {
        log.origins.push(link.origin_str().to_string());
    }
    Ok(())
}

/// Drives a crawl of `web` from `seed` to its end, one worker after the
/// other, and returns what was done.
fn run(
    crawler: &mut Crawler,
    web: &Web,
    seed: &str,
    verdict: &dyn Fn(&Page) -> CrawlFeedback,
) -> Result<Log, CrawlError> {
    let mut log = Log::default();
    let seed = Link::parse(seed).unwrap();
    let mut progress = crawler.crawl(&seed);
    if progress == Progress::NeedsQueue {
        open(crawler, web, &mut log, &seed)?;
        progress = crawler.crawl(&seed);
    }
    let mut now = 0;
    while progress == Progress::Waiting {
        let mut moved = false;
        let mut at = 0;
        while at < log.origins.len() {
            let origin = log.origins[at].clone();
            at += 1;
            let (step, _) = crawler.next(&origin, now);
            let page = match step {
                Step::Visit(page) => page,
                _ => continue,
            };
            moved = true;
            now = now.max(page.wait_until()) + 1;
            log.visits.push((page.url().to_string(), page.wait_until()));
            let (follow_up, _) = crawler.complete(&origin, verdict(&page));
            match follow_up {
                FollowUp::Follow => {
                    let links = web.links(page.url());
                    let _ = route_all(crawler, web, &mut log, &links);
                    crawler.finish(&origin);
                }
                FollowUp::Next => {}
                FollowUp::Stop => break,
            }
        }
        if crawler.wait() {
            progress = Progress::Finished;
        } else {
            assert!(moved, "work is outstanding but no worker can move");
        }
    }
    Ok(log)
}

fn urls(log: &Log) -> Vec<&str> {
    log.visits.iter().map(|(url, _)| url.as_str()).collect()
}

fn two_sites() -> Web {
    Web {
        robots: vec![
            ("https://a.example/robots.txt", Some("User-agent: *\nDisallow: /private\n")),
            ("https://b.example/robots.txt", Some("User-agent: *\nCrawl-delay: 2\n")),
        ],
        pages: vec![(
            "https://a.example/",
            vec!["https://a.example/private", "https://b.example/x"],
        )],
    }
}

#[test]
fn new_crawler_is_idle_and_not_aborted() {
    let crawler = Crawler::new(BrowserMode::Static, None);
    assert!(!crawler.is_aborted());
    assert_eq!(crawler.active(), 0);
    assert_eq!(crawler.origins(), 0);
    assert!(!crawler.has_queue("https://a.example"));
}

#[test]
fn disallowed_link_is_skipped_and_other_origin_is_crawled() {
    let mut crawler = Crawler::new(BrowserMode::Static, None);
    let log = run(&mut crawler, &two_sites(), "https://a.example/", &|_| CrawlFeedback::Continue)
        .unwrap();
    assert_eq!(urls(&log), ["https://a.example/", "https://b.example/x"]);
    assert_eq!(log.origins, ["https://a.example", "https://b.example"]);
    assert_eq!(
        log.robots_requests,
        ["https://a.example/robots.txt", "https://b.example/robots.txt"]
    );
    assert_eq!(crawler.active(), 0);
    assert!(!crawler.is_aborted());
    assert!(crawler.wait());
}

#[test]
fn stop_on_the_first_page_ends_the_crawl() {
    let mut crawler = Crawler::new(BrowserMode::Static, None);
    let log = run(&mut crawler, &two_sites(), "https://a.example/", &|_| CrawlFeedback::Stop)
        .unwrap();
    assert_eq!(urls(&log), ["https://a.example/"]);
    assert_eq!(log.robots_requests, ["https://a.example/robots.txt"]);
    assert!(crawler.is_aborted());
    assert!(crawler.wait());
    assert!(!crawler.has_queue("https://b.example"));
    let (step, _) = crawler.next("https://a.example", 1_000_000);
    assert!(matches!(step, Step::Closed));
}

#[test]
fn unreachable_robots_document_means_no_restrictions() {
    let web = Web {
        robots: vec![("https://a.example/robots.txt", None)],
        pages: vec![(
            "https://a.example/",
            vec!["https://a.example/private", "https://a.example/other"],
        )],
    };
    let mut crawler = Crawler::new(BrowserMode::Static, None);
    let log = run(&mut crawler, &web, "https://a.example/", &|_| CrawlFeedback::Continue).unwrap();
    assert_eq!(
        log.visits,
        [
            ("https://a.example/".to_string(), 0),
            ("https://a.example/private".to_string(), 5000),
            ("https://a.example/other".to_string(), 10000),
        ]
    );
}

#[test]
fn every_reachable_page_is_visited_once() {
    let web = Web {
        robots: vec![],
        pages: vec![
            (
                "https://a.example/",
                vec!["https://a.example/1", "https://b.example/", "https://a.example/"],
            ),
            (
                "https://a.example/1",
                vec!["https://a.example/", "https://b.example/", "https://a.example/2"],
            ),
            ("https://a.example/2", vec!["https://a.example/1"]),
            ("https://b.example/", vec!["https://a.example/2", "https://b.example/"]),
        ],
    };
    let mut crawler = Crawler::new(BrowserMode::Static, None);
    let log = run(&mut crawler, &web, "https://a.example/", &|_| CrawlFeedback::Continue).unwrap();
    let mut visited = urls(&log);
    visited.sort();
    assert_eq!(
        visited,
        ["https://a.example/", "https://a.example/1", "https://a.example/2", "https://b.example/"]
    );
    assert_eq!(crawler.active(), 0);
}

#[test]
fn dont_follow_discards_the_links_of_a_page() {
    let mut crawler = Crawler::new(BrowserMode::Static, None);
    let log = run(&mut crawler, &two_sites(), "https://a.example/", &|_| CrawlFeedback::DontFollow)
        .unwrap();
    assert_eq!(urls(&log), ["https://a.example/"]);
    assert!(!crawler.is_aborted());
    assert_eq!(crawler.active(), 0);
}

#[test]
fn malformed_robots_document_of_the_seed_fails_the_crawl() {
    let mut rule = String::from("User-agent: *\nDisallow: /");
    for _ in 0..20000 {
        rule.push_str("a*b");
    }
    rule.push_str("$\n");
    let mut crawler = Crawler::new(BrowserMode::Static, None);
    let seed = Link::parse("https://a.example/").unwrap();
    assert_eq!(crawler.crawl(&seed), Progress::NeedsQueue);
    assert_eq!(crawler.open_queue(&seed, RobotsFetch::Body(rule)), Err(CrawlError::Robots));
    assert!(!crawler.has_queue("https://a.example"));
    assert_eq!(crawler.crawl(&seed), Progress::NeedsQueue);
    assert_eq!(crawler.active(), 0);
}

#[test]
fn url_without_site_cannot_be_routed() {
    let mut crawler = Crawler::new(BrowserMode::Static, None);
    let seed = Link::parse("data:text/plain,hello").unwrap();
    assert_eq!(crawler.crawl(&seed), Progress::NeedsQueue);
    assert_eq!(crawler.open_queue(&seed, RobotsFetch::Unreachable), Err(CrawlError::Origin));
    assert_eq!(crawler.origins(), 0);
}

#[test]
fn an_origin_gets_one_queue_only() {
    let mut crawler = Crawler::new(BrowserMode::Static, None);
    let one = Link::parse("https://a.example/1").unwrap();
    let two = Link::parse("https://a.example/2").unwrap();
    assert_eq!(crawler.open_queue(&one, RobotsFetch::Unreachable), Ok(true));
    let strict = RobotsFetch::Body("User-agent: *\nDisallow: /\n".to_string());
    assert_eq!(crawler.open_queue(&two, strict), Ok(false));
    assert_eq!(crawler.origins(), 1);
    assert!(crawler.has_queue("https://a.example"));
    // The first queue, without restrictions, is still the one in place.
    assert_eq!(crawler.route(&vec![two], 0), 1);
    let (step, _) = crawler.next("https://a.example", 0);
    assert!(matches!(step, Step::Visit(_)));
}

#[test]
fn routing_stops_in_front_of_an_unknown_origin() {
    let mut crawler = Crawler::new(BrowserMode::Static, None);
    let links: Vec<Link> = [
        "https://a.example/1",
        "https://a.example/2",
        "https://b.example/1",
        "https://a.example/3",
    ]
    .iter()
    .map(|l| Link::parse(l).unwrap())
    .collect();
    assert_eq!(crawler.route(&links, 0), 0);
    crawler.open_queue(&links[0], RobotsFetch::Unreachable).unwrap();
    assert_eq!(crawler.route(&links, 0), 2);
    assert_eq!(crawler.active(), 2);
    crawler.open_queue(&links[2], RobotsFetch::Unreachable).unwrap();
    assert_eq!(crawler.route(&links, 2), 4);
    assert_eq!(crawler.active(), 4);
    assert_eq!(crawler.route(&links, 4), 4);
    assert_eq!(crawler.active(), 4);
}

#[test]
fn routing_a_url_twice_counts_it_once() {
    let mut crawler = Crawler::new(BrowserMode::Static, None);
    let link = Link::parse("https://a.example/1").unwrap();
    crawler.open_queue(&link, RobotsFetch::Unreachable).unwrap();
    let links = vec![link.clone(), link.clone(), Link::parse("https://A.example:443/1").unwrap()];
    assert_eq!(crawler.route(&links, 0), 3);
    assert_eq!(crawler.active(), 1);
    assert_eq!(crawler.route(&links, 0), 3);
    assert_eq!(crawler.active(), 1);
    let (step, _) = crawler.next("https://a.example", 0);
    assert!(matches!(step, Step::Visit(_)));
    crawler.complete("https://a.example", CrawlFeedback::DontFollow);
    let (step, _) = crawler.next("https://a.example", 10_000);
    assert!(matches!(step, Step::Idle));
}

#[test]
fn pages_carry_the_mode_of_the_crawl() {
    let mut crawler = Crawler::new(BrowserMode::Headless, None);
    let link = Link::parse("https://a.example/1").unwrap();
    crawler.open_queue(&link, RobotsFetch::Unreachable).unwrap();
    assert_eq!(crawler.crawl(&link), Progress::Waiting);
    match crawler.next("https://a.example", 42).0 {
        Step::Visit(page) => {
            assert_eq!(page.mode(), BrowserMode::Headless);
            assert_eq!(page.url(), "https://a.example/1");
            assert_eq!(page.wait_until(), 42);
        }
        other => panic!("expected a visit, got {:?}", other),
    }
}

#[test]
fn robots_documents_are_read_for_the_given_agent() {
    let rules = "User-agent: Spider\nDisallow: /\n\nUser-agent: *\nDisallow:\n";
    let link = Link::parse("https://a.example/1").unwrap();

    let mut named = Crawler::new(BrowserMode::Static, Some("Spider".to_string()));
    named.open_queue(&link, RobotsFetch::Body(rules.to_string())).unwrap();
    named.crawl(&link);
    assert!(matches!(named.next("https://a.example", 0).0, Step::Idle));
    assert_eq!(named.active(), 0);

    let mut default = Crawler::new(BrowserMode::Static, None);
    default.open_queue(&link, RobotsFetch::Body(rules.to_string())).unwrap();
    default.crawl(&link);
    assert!(matches!(default.next("https://a.example", 0).0, Step::Visit(_)));

    // The default agent is called Crawler.
    let for_default = "User-agent: Crawler\nDisallow: /\n\nUser-agent: *\nDisallow:\n";
    let mut crawler = Crawler::new(BrowserMode::Static, None);
    crawler.open_queue(&link, RobotsFetch::Body(for_default.to_string())).unwrap();
    crawler.crawl(&link);
    assert!(matches!(crawler.next("https://a.example", 0).0, Step::Idle));
}

#[test]
fn abort_wakes_the_waiter_and_ends_every_worker() {
    let mut crawler = Crawler::new(BrowserMode::Static, None);
    let a = Link::parse("https://a.example/1").unwrap();
    let b = Link::parse("https://b.example/1").unwrap();
    crawler.open_queue(&a, RobotsFetch::Unreachable).unwrap();
    crawler.open_queue(&b, RobotsFetch::Unreachable).unwrap();
    assert_eq!(crawler.route(&vec![a.clone(), b.clone()], 0), 2);
    assert_eq!(crawler.crawl(&a), Progress::Waiting);
    assert_eq!(crawler.active(), 2);
    assert!(crawler.abort());
    assert!(crawler.is_aborted());
    assert_eq!(crawler.active(), 0);
    assert!(crawler.wait());
    assert!(matches!(crawler.next("https://a.example", 0).0, Step::Closed));
    assert!(matches!(crawler.next("https://b.example", 0).0, Step::Closed));
    // Nothing is routed or opened any more, and the crawl is finished.
    let c = Link::parse("https://c.example/1").unwrap();
    assert_eq!(crawler.route(&vec![c.clone(), a.clone()], 0), 2);
    assert_eq!(crawler.open_queue(&c, RobotsFetch::Unreachable), Ok(false));
    assert_eq!(crawler.origins(), 2);
    assert_eq!(crawler.crawl(&c), Progress::Finished);
    assert_eq!(crawler.active(), 0);
    // A second abort changes nothing.
    crawler.abort();
    assert!(crawler.is_aborted());
    assert_eq!(crawler.active(), 0);
}

#[test]
fn abort_without_waiter_wakes_nobody() {
    let mut crawler = Crawler::new(BrowserMode::Static, None);
    assert!(!crawler.abort());
    assert!(crawler.is_aborted());
}

#[test]
fn visit_in_flight_at_abort_is_not_counted_out() {
    let mut crawler = Crawler::new(BrowserMode::Static, None);
    let a = Link::parse("https://a.example/1").unwrap();
    crawler.open_queue(&a, RobotsFetch::Unreachable).unwrap();
    crawler.crawl(&a);
    assert!(matches!(crawler.next("https://a.example", 0).0, Step::Visit(_)));
    crawler.abort();
    assert_eq!(
        crawler.complete("https://a.example", CrawlFeedback::Continue),
        (FollowUp::Stop, false)
    );
    assert!(!crawler.finish("https://a.example"));
    assert_eq!(crawler.active(), 0);
}

#[test]
fn last_finished_visit_wakes_the_waiter() {
    let mut crawler = Crawler::new(BrowserMode::Static, None);
    let a = Link::parse("https://a.example/1").unwrap();
    crawler.open_queue(&a, RobotsFetch::Unreachable).unwrap();
    assert_eq!(crawler.crawl(&a), Progress::Waiting);
    assert!(matches!(crawler.next("https://a.example", 0).0, Step::Visit(_)));
    assert_eq!(
        crawler.complete("https://a.example", CrawlFeedback::Continue),
        (FollowUp::Follow, false)
    );
    assert!(crawler.finish("https://a.example"));
    assert_eq!(crawler.crawl(&a), Progress::Finished);
}

#[test]
fn worker_of_an_unknown_origin_ends() {
    let mut crawler = Crawler::new(BrowserMode::Static, None);
    assert!(matches!(crawler.next("https://nowhere.example", 0).0, Step::Closed));
    assert_eq!(
        crawler.complete("https://nowhere.example", CrawlFeedback::Continue),
        (FollowUp::Stop, false)
    );
    assert!(!crawler.finish("https://nowhere.example"));
    assert!(!crawler.is_aborted());
}

struct StopAt {
    url: &'static str,
    seen: RefCell<Vec<String>>,
}

impl CrawlingCallback for StopAt {
    fn visit(&self, page: &Page) -> CrawlFeedback {
        self.seen.borrow_mut().push(page.url().to_string());
        if page.url() == self.url {
            CrawlFeedback::Stop
        } else {
            CrawlFeedback::Continue
        }
    }
}

#[test]
fn visitor_decides_how_the_crawl_goes_on() {
    let visitor = StopAt { url: "https://a.example/2", seen: RefCell::new(Vec::new()) };
    let mut crawler = Crawler::new(BrowserMode::Static, None);
    let links = vec![
        Link::parse("https://a.example/1").unwrap(),
        Link::parse("https://a.example/2").unwrap(),
        Link::parse("https://a.example/3").unwrap(),
    ];
    crawler.open_queue(&links[0], RobotsFetch::Unreachable).unwrap();
    crawler.route(&links, 0);

    let page = match crawler.next("https://a.example", 0).0 {
        Step::Visit(page) => page,
        other => panic!("expected a visit, got {:?}", other),
    };
    let (feedback, follow_up, _) = crawler.visit(&visitor, "https://a.example", &page);
    assert_eq!(feedback, Some(CrawlFeedback::Continue));
    assert_eq!(follow_up, FollowUp::Follow);
    crawler.finish("https://a.example");

    let page = match crawler.next("https://a.example", 0).0 {
        Step::Visit(page) => page,
        other => panic!("expected a visit, got {:?}", other),
    };
    let (feedback, follow_up, _) = crawler.visit(&visitor, "https://a.example", &page);
    assert_eq!(feedback, Some(CrawlFeedback::Stop));
    assert_eq!(follow_up, FollowUp::Stop);
    assert!(crawler.is_aborted());

    // After the abort the visitor is not called again.
    let (feedback, follow_up, wake) = crawler.visit(&visitor, "https://a.example", &page);
    assert_eq!(feedback, None);
    assert_eq!(follow_up, FollowUp::Stop);
    assert!(!wake);
    assert_eq!(*visitor.seen.borrow(), ["https://a.example/1", "https://a.example/2"]);
}

#[test]
fn origins_do_not_hold_each_other_up() {
    let mut crawler = Crawler::new(BrowserMode::Static, None);
    let links: Vec<Link> = ["https://a.example/1", "https://a.example/2", "https://b.example/1"]
        .iter()
        .map(|l| Link::parse(l).unwrap())
        .collect();
    crawler.open_queue(&links[0], RobotsFetch::Unreachable).unwrap();
    crawler.open_queue(&links[2], RobotsFetch::Unreachable).unwrap();
    assert_eq!(crawler.route(&links, 0), 3);
    let first = match crawler.next("https://a.example", 0).0 {
        Step::Visit(page) => page,
        other => panic!("expected a visit, got {:?}", other),
    };
    assert_eq!(first.wait_until(), 0);
    // The visit on the first origin is still in progress.
    let elsewhere = match crawler.next("https://b.example", 1).0 {
        Step::Visit(page) => page,
        other => panic!("expected a visit, got {:?}", other),
    };
    assert_eq!(elsewhere.url(), "https://b.example/1");
    assert_eq!(elsewhere.wait_until(), 1);
    assert!(matches!(crawler.next("https://a.example", 2).0, Step::Busy));
    crawler.complete("https://a.example", CrawlFeedback::DontFollow);
    let second = match crawler.next("https://a.example", 2).0 {
        Step::Visit(page) => page,
        other => panic!("expected a visit, got {:?}", other),
    };
    assert_eq!(second.wait_until(), 5000);
}

#[test]
fn denied_seed_is_counted_out_and_ends_the_crawl() {
    let mut crawler = Crawler::new(BrowserMode::Static, None);
    let seed = Link::parse("https://a.example/private").unwrap();
    let rules = RobotsFetch::Body("User-agent: *\nDisallow: /private\n".to_string());
    assert_eq!(crawler.crawl(&seed), Progress::NeedsQueue);
    assert_eq!(crawler.open_queue(&seed, rules), Ok(true));
    assert_eq!(crawler.crawl(&seed), Progress::Waiting);
    assert_eq!(crawler.active(), 1);
    let (step, wake) = crawler.next("https://a.example", 0);
    assert!(matches!(step, Step::Idle));
    assert!(wake);
    assert_eq!(crawler.active(), 0);
    assert_eq!(crawler.crawl(&seed), Progress::Finished);
    assert_eq!(crawler.active(), 0);
}
