use benford_crawl::crawl::Crawler;
use benford_crawl::process::get_data;
use benford_crawl::links::UrlParts;
use benford_crawl::stats::Stats;

fn seed_children() -> Vec<String> {
    vec![
        "http://x.com/a".to_string(),
        "http://x.com/b".to_string(),
        "http://x.com/c".to_string(),
    ]
}

#[test]
fn depth_zero_fetches_nothing() {
    let mut c = Crawler::start(seed_children(), 0);
    assert_eq!(c.next_url(), None);
    assert_eq!(c.report.success, 0);
    assert_eq!(c.report.fail, 0);
    assert!(c.report.url_stats.is_empty());
}

#[test]
fn depth_zero_on_empty_frontier_too() {
    let mut c = Crawler::start(Vec::new(), 0);
    assert_eq!(c.next_url(), None);
    let mut d = Crawler::start(Vec::new(), 3);
    assert_eq!(d.next_url(), None);
    assert_eq!(d.report.success + d.report.fail, 0);
}

#[test]
fn three_children_all_succeed() {
    // the seed page itself is processed once, then its children are
    // crawled with the whole depth budget
    let seed_html = "<a href=\"/a\">a</a><a href=\"/b\">b</a><a href=\"/c\">c</a>";
    let seed = UrlParts { full: "http://x.com/page".to_string(), path: "/page".to_string() };
    let seed_data = get_data(seed_html, &seed);
    assert_eq!(seed_data.child_urls.len(), 3);
    let children = seed_data.child_urls.clone();

    let mut total = Stats::new(None);
    total.add(seed_data);

    let mut c = Crawler::start(children, 1);
    let mut fetched = 0;
    while let Some(_url) = c.next_url() {
        fetched += 1;
        c.on_fetch(Some("no links, no numbers".to_string()));
    }
    assert_eq!(fetched, 3);
    let merged = total.merge(c.report);
    assert_eq!(merged.success, 4);
    assert_eq!(merged.fail, 0);
    assert_eq!(merged.url_stats.len(), 4);
}

#[test]
fn one_child_fails_to_fetch() {
    let seed_html = "<a href=\"/a\">a</a><a href=\"/b\">b</a><a href=\"/c\">c</a>";
    let seed = UrlParts { full: "http://x.com/page".to_string(), path: "/page".to_string() };
    let seed_data = get_data(seed_html, &seed);
    let children = seed_data.child_urls.clone();

    let mut total = Stats::new(None);
    total.add(seed_data);

    let mut c = Crawler::start(children, 1);
    let mut handed = 0;
    while let Some(_url) = c.next_url() {
        handed += 1;
        if handed == 2 {
            c.on_fetch(None);
        } else {
            c.on_fetch(Some("plain page".to_string()));
        }
    }
    let merged = total.merge(c.report);
    assert_eq!(merged.success, 3);
    assert_eq!(merged.fail, 1);
}

#[test]
fn descent_follows_children_one_level() {
    // depth 2: the child page's own children are fetched too
    let mut c = Crawler::start(vec!["http://x.com/top".to_string()], 2);
    let first = c.next_url().unwrap();
    assert_eq!(first, "http://x.com/top");
    c.on_fetch(Some("<a href=\"/leaf\">leaf</a>".to_string()));
    let second = c.next_url().unwrap();
    assert_eq!(second, "http://x.com/leaf");
    c.on_fetch(Some("done 42".to_string()));
    assert_eq!(c.next_url(), None);
    assert_eq!(c.report.success, 2);
    assert_eq!(c.report.fail, 0);
}

#[test]
fn depth_limit_stops_descent() {
    // depth 1: the child page's links are discovered but never fetched
    let mut c = Crawler::start(vec!["http://x.com/top".to_string()], 1);
    let first = c.next_url().unwrap();
    assert_eq!(first, "http://x.com/top");
    c.on_fetch(Some("<a href=\"/leaf\">leaf</a>".to_string()));
    assert_eq!(c.next_url(), None);
    assert_eq!(c.report.success, 1);
    assert_eq!(c.report.fail, 0);
}

#[test]
fn invalid_url_counts_as_failure() {
    let mut c = Crawler::start(vec!["not a url at all".to_string()], 1);
    let url = c.next_url().unwrap();
    assert_eq!(url, "not a url at all");
    c.on_fetch(Some("a body that arrived anyway".to_string()));
    assert_eq!(c.report.success, 0);
    assert_eq!(c.report.fail, 1);
}

#[test]
fn failed_fetch_counts_once() {
    let mut c = Crawler::start(vec!["http://x.com/q".to_string()], 5);
    c.next_url().unwrap();
    c.on_fetch(None);
    assert_eq!(c.next_url(), None);
    assert_eq!(c.report.success, 0);
    assert_eq!(c.report.fail, 1);
}
