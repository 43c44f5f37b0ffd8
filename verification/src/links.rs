//! Child-URL discovery: the anchor `href` values of a fetched page are
//! filtered (fragment links dropped), resolved against the page's own URL
//! (scheme + host prefix for relative links), validated, normalized and
//! deduplicated. HTML parsing and URL parsing are outside collaborators,
//! trusted at their interface; everything around them is verified.

use vstd::prelude::*;

verus! {

/// A parsed, validated URL reduced to the plain text the crawl logic
/// reads: its normalized serialization and its path component.
pub struct UrlParts {
    pub full: String,
    pub path: String,
}

/// What `url::Url::parse` makes of a text: `None` where it is rejected,
/// otherwise the normalized serialization and the path component.
pub uninterp spec fn url_parse_spec(s: Seq<char>) -> Option<(Seq<char>, Seq<char>)>;

/// Relies on `url::Url::parse`, and on `Url::as_str` and `Url::path` of
/// the parsed value: whether a text parses as an absolute URL, its
/// normalized serialization and its path component depend on the text
/// alone.
#[verifier::external_body]
pub(crate) fn parse_url(raw: &str) -> (r: Option<UrlParts>)
    ensures
        match r {
            Some(p) => url_parse_spec(raw@) == Some((p.full@, p.path@)),
            None => url_parse_spec(raw@) is None,
        },
{
    match url::Url::parse(raw) {
        Ok(u) => {
            let path = u.path().to_string();
            Some(UrlParts { full: u.as_str().to_string(), path })
        },
        Err(_) => None,
    }
}

/// The `href` attribute values of the anchor elements of a document, in
/// document order.
pub uninterp spec fn hrefs_of(html: Seq<char>) -> Seq<Seq<char>>;

/// Relies on `scraper::Html::parse_document`, `Selector::parse` with the
/// anchor selector, `Html::select` and `Element::attr`: the anchors of a
/// document and their `href` attributes depend on the HTML text alone.
#[verifier::external_body]
pub(crate) fn anchor_hrefs(html: &str) -> (r: Vec<String>)
    ensures
        r.deep_view() == hrefs_of(html@),
{
    let selector = scraper::Selector::parse("a").unwrap();
    let document = scraper::Html::parse_document(html);
    let mut result = Vec::new();
    for element in document.select(&selector) {
        if let Some(link) = element.value().attr("href") {
            result.push(link.to_string());
        }
    }
    result
}

/// The text with every occurrence of `p` removed, scanning left to right
/// over non-overlapping occurrences; an empty `p` removes nothing.
pub open spec fn remove_all_spec(s: Seq<char>, p: Seq<char>) -> Seq<char>
    decreases s.len(),
{
    if p.len() == 0 || s.len() < p.len() {
        s
    } else if s.take(p.len() as int) == p {
        remove_all_spec(s.skip(p.len() as int), p)
    } else {
        seq![s[0]] + remove_all_spec(s.skip(1), p)
    }
}

/// Whether `p` occurs in `s` at position `i`.
fn matches_at(s: &str, n: usize, i: usize, p: &str, m: usize) -> (r: bool)
    requires
        n == s@.len(),
        m == p@.len(),
        i + m <= n,
    ensures
        r == (s@.subrange(i as int, i + m) == p@),
{
    let mut j: usize = 0;
    while j < m
        invariant
            j <= m,
            n == s@.len(),
            m == p@.len(),
            i + m <= n,
            forall|k: int| 0 <= k < j ==> s@[i + k] == p@[k],
        decreases m - j,
    {
        if s.get_char(i + j) != p.get_char(j) {
            proof {
                assert(s@.subrange(i as int, i + m)[j as int] != p@[j as int]);
            }
            return false;
        }
        j += 1;
    }
    proof {
        assert(s@.subrange(i as int, i + m) =~= p@);
    }
    true
}

/// Remove every occurrence of `pat` from `s`, as replacing it with the
/// empty text does.
pub fn remove_all(s: &str, pat: &str) -> (r: String)
    ensures
        r@ == remove_all_spec(s@, pat@),
{
    let n: usize = s.unicode_len();
    let m: usize = pat.unicode_len();
    if m == 0 {
        return String::from_str(s);
    }
    let mut out: String = String::new();
    let mut i: usize = 0;
    proof {
        assert(s@.skip(0) =~= s@);
    }
    while i < n
        invariant
            i <= n,
            n == s@.len(),
            m == pat@.len(),
            m >= 1,
            out@ + remove_all_spec(s@.skip(i as int), pat@) == remove_all_spec(s@, pat@),
        decreases n - i,
    {
        let ghost tail = s@.skip(i as int);
        if m <= n - i && matches_at(s, n, i, pat, m) {
            proof {
                assert(tail.take(m as int) =~= s@.subrange(i as int, i + m));
                assert(tail.skip(m as int) =~= s@.skip(i + m));
            }
            i += m;
        } else {
            out.append(s.substring_char(i, i + 1));
            proof {
                assert(tail[0] == s@[i as int]);
                assert(tail.skip(1) =~= s@.skip(i + 1));
                if i + m <= n {
                    assert(tail.take(m as int) =~= s@.subrange(i as int, i + m));
                    assert(remove_all_spec(tail, pat@) == seq![tail[0]] + remove_all_spec(
                        tail.skip(1),
                        pat@,
                    ));
                } else {
                    assert(remove_all_spec(tail, pat@) == tail);
                    assert(remove_all_spec(s@.skip(i + 1), pat@) == s@.skip(i + 1));
                    assert(tail =~= seq![tail[0]] + tail.skip(1));
                }
                assert(out@ + remove_all_spec(s@.skip(i + 1), pat@) == remove_all_spec(s@, pat@));
            }
            i += 1;
        }
    }
    proof {
        assert(s@.skip(n as int) =~= Seq::<char>::empty());
        assert(remove_all_spec(s@.skip(n as int), pat@) == s@.skip(n as int));
        assert(out@ =~= out@ + s@.skip(n as int));
    }
    out
}

/// Whether the link text starts with `http`, in which case it is taken
/// verbatim instead of being resolved against the page's URL.
pub open spec fn starts_with_http(h: Seq<char>) -> bool {
    h.len() >= 4 && h[0] == 'h' && h[1] == 't' && h[2] == 't' && h[3] == 'p'
}

fn starts_with_http_exec(h: &str) -> (r: bool)
    ensures
        r == starts_with_http(h@),
{
    h.unicode_len() >= 4 && h.get_char(0) == 'h' && h.get_char(1) == 't' && h.get_char(2) == 't'
        && h.get_char(3) == 'p'
}

fn has_char(s: &str, c: char) -> (r: bool)
    ensures
        r == s@.contains(c),
{
    let n: usize = s.unicode_len();
    let mut i: usize = 0;
    while i < n
        invariant
            i <= n,
            n == s@.len(),
            forall|k: int| 0 <= k < i ==> s@[k] != c,
        decreases n - i,
    {
        if s.get_char(i) == c {
            return true;
        }
        i += 1;
    }
    proof {
        assert(forall|k: int| 0 <= k < s@.len() ==> s@[k] != c);
    }
    false
}

fn vec_contains_str(v: &Vec<String>, s: &String) -> (r: bool)
    ensures
        r == v.deep_view().contains(s@),
{
    let n: usize = v.len();
    let mut i: usize = 0;
    while i < n
        invariant
            i <= n,
            n == v@.len(),
            forall|k: int| 0 <= k < i ==> v.deep_view()[k] != s@,
        decreases n - i,
    {
        let equal = v[i].eq(s);
        proof {
            assert(v.deep_view()[i as int] == v@[i as int]@);
        }
        if equal {
            return true;
        }
        i += 1;
    }
    false
}

/// The absolute, normalized URL that an anchor's `href` contributes, if
/// any: fragment links are dropped, a link not starting with `http` is
/// prefixed with the page's full URL text stripped of its path, and the
/// candidate must parse.
pub open spec fn resolved_link(h: Seq<char>, full: Seq<char>, path: Seq<char>) -> Option<
    Seq<char>,
> {
    if h.contains('#') {
        None
    } else {
        let cand = if starts_with_http(h) {
            h
        } else {
            remove_all_spec(full, path) + h
        };
        match url_parse_spec(cand) {
            Some(parts) => Some(parts.0),
            None => None,
        }
    }
}

/// Whether `u` is one of the first `k` hrefs' resolved links.
pub open spec fn is_child_upto(
    html: Seq<char>,
    full: Seq<char>,
    path: Seq<char>,
    u: Seq<char>,
    k: int,
) -> bool {
    exists|j: int|
        0 <= j < k && j < hrefs_of(html).len() && resolved_link(hrefs_of(html)[j], full, path)
            == Some(u)
}

/// Whether `u` is a child URL of the page: some anchor's href resolves to
/// it.
pub open spec fn is_child(html: Seq<char>, full: Seq<char>, path: Seq<char>, u: Seq<char>) -> bool {
    is_child_upto(html, full, path, u, hrefs_of(html).len() as int)
}

/// Retrieve the set of child URLs of a page: each anchor's `href`,
/// without fragment links, resolved to an absolute normalized URL and
/// listed once.
pub fn get_links(html: &str, url: &UrlParts) -> (r: Vec<String>)
    ensures
        forall|u: Seq<char>| r.deep_view().contains(u) <==> is_child(html@, url.full@, url.path@, u),
        forall|j1: int, j2: int|
            0 <= j1 < j2 < r.deep_view().len() ==> r.deep_view()[j1] != r.deep_view()[j2],
{
    let hrefs = anchor_hrefs(html);
    let base = remove_all(url.full.as_str(), url.path.as_str());
    let mut result: Vec<String> = Vec::new();
    let n: usize = hrefs.len();
    let mut k: usize = 0;
    while k < n
        invariant
            k <= n,
            n == hrefs_of(html@).len(),
            hrefs.deep_view() == hrefs_of(html@),
            base@ == remove_all_spec(url.full@, url.path@),
            forall|u: Seq<char>|
                result.deep_view().contains(u) <==> is_child_upto(
                    html@,
                    url.full@,
                    url.path@,
                    u,
                    k as int,
                ),
            forall|j1: int, j2: int|
                0 <= j1 < j2 < result.deep_view().len() ==> result.deep_view()[j1]
                    != result.deep_view()[j2],
        decreases n - k,
    {
        let ghost h = hrefs_of(html@)[k as int];
        let ghost prev = result.deep_view();
        let href = &hrefs[k];
        proof {
            assert(hrefs.deep_view()[k as int] == hrefs@[k as int]@);
            assert(href@ == h);
        }
        if !has_char(href.as_str(), '#') {
            let candidate = if starts_with_http_exec(href.as_str()) {
                href.clone()
            } else {
                base.clone().concat(href.as_str())
            };
            match parse_url(candidate.as_str()) {
                Some(parts) => {
                    proof {
                        assert(resolved_link(h, url.full@, url.path@) == Some(parts.full@));
                    }
                    let already = vec_contains_str(&result, &parts.full);
                    let ghost newu = parts.full@;
                    if !already {
                        result.push(parts.full);
                    }
                    proof {
                        if !already {
                            assert(result.deep_view() =~= prev.push(newu));
                            assert(result.deep_view()[prev.len() as int] == newu);
                        }
                        assert forall|u: Seq<char>|
                            result.deep_view().contains(u) <==> is_child_upto(
                                html@,
                                url.full@,
                                url.path@,
                                u,
                                k + 1,
                            ) by {
                            let rd = result.deep_view();
                            if rd.contains(u) {
                                let j = choose|j: int| 0 <= j < rd.len() && rd[j] == u;
                                if j < prev.len() {
                                    assert(prev[j] == u);
                                    assert(prev.contains(u));
                                } else {
                                    assert(u == newu);
                                    assert(resolved_link(h, url.full@, url.path@) == Some(u));
                                }
                            }
                            if is_child_upto(html@, url.full@, url.path@, u, k + 1) {
                                if is_child_upto(html@, url.full@, url.path@, u, k as int) {
                                    assert(prev.contains(u));
                                    let j = choose|j: int| 0 <= j < prev.len() && prev[j] == u;
                                    assert(rd[j] == u);
                                    assert(rd.contains(u));
                                } else {
                                    let j = choose|j: int|
                                        0 <= j < k + 1 && j < hrefs_of(html@).len()
                                            && resolved_link(hrefs_of(html@)[j], url.full@, url.path@)
                                            == Some(u);
                                    assert(j == k);
                                    assert(u == newu);
                                    if already {
                                        assert(prev.contains(u));
                                    } else {
                                        assert(rd[prev.len() as int] == u);
                                        assert(rd.contains(u));
                                    }
                                }
                            }
                        }
                    }
                },
                None => {
                    proof {
                        assert(resolved_link(h, url.full@, url.path@) is None);
                        assert forall|u: Seq<char>|
                            is_child_upto(html@, url.full@, url.path@, u, k + 1) <==> is_child_upto(
                                html@,
                                url.full@,
                                url.path@,
                                u,
                                k as int,
                            ) by {
                            if is_child_upto(html@, url.full@, url.path@, u, k + 1) {
                                let j = choose|j: int|
                                    0 <= j < k + 1 && j < hrefs_of(html@).len() && resolved_link(
                                        hrefs_of(html@)[j],
                                        url.full@,
                                        url.path@,
                                    ) == Some(u);
                                assert(j < k);
                            }
                        }
                    }
                },
            }
        } else {
            proof {
                assert(resolved_link(h, url.full@, url.path@) is None);
                assert forall|u: Seq<char>|
                    is_child_upto(html@, url.full@, url.path@, u, k + 1) <==> is_child_upto(
                        html@,
                        url.full@,
                        url.path@,
                        u,
                        k as int,
                    ) by {
                    if is_child_upto(html@, url.full@, url.path@, u, k + 1) {
                        let j = choose|j: int|
                            0 <= j < k + 1 && j < hrefs_of(html@).len() && resolved_link(
                                hrefs_of(html@)[j],
                                url.full@,
                                url.path@,
                            ) == Some(u);
                        assert(j < k);
                    }
                }
            }
        }
        k += 1;
    }
    result
}

} // verus!
