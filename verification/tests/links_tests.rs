use benford_crawl::links::UrlParts;
use benford_crawl::links::get_links;
use benford_crawl::links::remove_all;
use benford_crawl::process::get_data;

fn page_url() -> UrlParts {
    UrlParts { full: "http://x.com/page".to_string(), path: "/page".to_string() }
}

#[test]
fn remove_all_strips_every_occurrence() {
    assert_eq!(remove_all("http://x.com/page", "/page"), "http://x.com");
    assert_eq!(remove_all("aba", "a"), "b");
    assert_eq!(remove_all("aaa", "aa"), "a");
    assert_eq!(remove_all("abc", ""), "abc");
    assert_eq!(remove_all("abc", "xyz"), "abc");
}

#[test]
fn seed_page_scenario() {
    let html = "<a href=\"/a\">one</a><a href=\"http://x.com/b\">two</a>\
                <a href=\"#top\">top</a>Order 12300 of 0.123 units";
    let data = get_data(html, &page_url());

    assert_eq!(data.url, "http://x.com/page");
    let mut children = data.child_urls.clone();
    children.sort();
    assert_eq!(
        children,
        vec!["http://x.com/a".to_string(), "http://x.com/b".to_string()]
    );

    // canonical "123" twice: start digit 1, end digit 3, length 3
    assert_eq!(data.freq_start.0[0], 2);
    assert_eq!(data.freq_start.0.iter().sum::<u128>(), 2);
    assert_eq!(data.freq_end.0[2], 2);
    assert_eq!(data.freq_end.0.iter().sum::<u128>(), 2);
    assert_eq!(data.size_freq.multiplicity(&3), 2);
    assert_eq!(data.size_freq.multiplicity(&0), 0);
    assert_eq!(data.size_freq.inner().len(), 1);
}

#[test]
fn duplicate_hrefs_count_once() {
    let html = "<a href=\"/a\">x</a><a href=\"/a\">y</a><a href=\"http://x.com/a\">z</a>";
    let links = get_links(html, &page_url());
    assert_eq!(links, vec!["http://x.com/a".to_string()]);
}

#[test]
fn fragment_links_are_dropped() {
    let html = "<a href=\"#intro\">i</a><a href=\"/sub#part\">p</a>";
    let links = get_links(html, &page_url());
    assert!(links.is_empty());
}

#[test]
fn unparsable_candidates_are_dropped() {
    // starts with "http" so it is taken verbatim, but it is not a valid URL
    let html = "<a href=\"http://[half\">a</a>";
    let links = get_links(html, &page_url());
    assert!(links.is_empty());
}

#[test]
fn relative_and_absolute_links_resolve() {
    let html = "<a href=\"/alpha\">a</a><a href=\"http://other.org/beta\">b</a>";
    let mut links = get_links(html, &page_url());
    links.sort();
    assert_eq!(
        links,
        vec![
            "http://other.org/beta".to_string(),
            "http://x.com/alpha".to_string(),
        ]
    );
}
