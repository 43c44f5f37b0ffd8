//! The page extractor: from fetched HTML text and the page's own URL it
//! produces the page's child-URL set and its digit statistics — for every
//! numeric token, the canonical number's length, and its first and last
//! digit counted into the two histograms.

use crate::bag::Bag;
use crate::canon::canon;
use crate::canon::treat_number;
use crate::links::UrlParts;
use crate::links::get_links;
use crate::links::is_child;
use crate::stats::BenfordStats;
use crate::stats::FreqType;
use crate::tokens::numeric_tokens;
use vstd::prelude::*;

verus! {

/// The digit value a character stands for.
pub open spec fn digit_val(c: char) -> int {
    c as int - 48
}

/// How many tokens have a nonempty canonical form whose first character
/// is digit `d`.
pub open spec fn count_start(toks: Seq<Seq<char>>, d: int) -> int
    decreases toks.len(),
{
    if toks.len() == 0 {
        0
    } else {
        count_start(toks.drop_last(), d) + (if canon(toks.last()).len() > 0 && digit_val(
            canon(toks.last()).first(),
        ) == d {
            1int
        } else {
            0int
        })
    }
}

/// How many tokens have a nonempty canonical form whose last character
/// is digit `d`.
pub open spec fn count_end(toks: Seq<Seq<char>>, d: int) -> int
    decreases toks.len(),
{
    if toks.len() == 0 {
        0
    } else {
        count_end(toks.drop_last(), d) + (if canon(toks.last()).len() > 0 && digit_val(
            canon(toks.last()).last(),
        ) == d {
            1int
        } else {
            0int
        })
    }
}

pub open spec fn map_count(m: Map<u64, usize>, l: u64) -> int {
    if m.contains_key(l) {
        m[l] as int
    } else {
        0
    }
}

/// The multiset of canonical-number lengths of the tokens, as a map from
/// length to occurrence count.
pub open spec fn len_counts(toks: Seq<Seq<char>>) -> Map<u64, usize>
    decreases toks.len(),
{
    if toks.len() == 0 {
        Map::empty()
    } else {
        let m = len_counts(toks.drop_last());
        let l = canon(toks.last()).len() as u64;
        m.insert(l, (map_count(m, l) + 1) as usize)
    }
}

proof fn lemma_count_start_bound(toks: Seq<Seq<char>>, d: int)
    ensures
        0 <= count_start(toks, d) <= toks.len(),
    decreases toks.len(),
{
    if toks.len() > 0 {
        lemma_count_start_bound(toks.drop_last(), d);
    }
}

proof fn lemma_count_end_bound(toks: Seq<Seq<char>>, d: int)
    ensures
        0 <= count_end(toks, d) <= toks.len(),
    decreases toks.len(),
{
    if toks.len() > 0 {
        lemma_count_end_bound(toks.drop_last(), d);
    }
}

proof fn lemma_len_counts_bound(toks: Seq<Seq<char>>)
    ensures
        forall|l: u64| 0 <= #[trigger] map_count(len_counts(toks), l) <= toks.len(),
    decreases toks.len(),
{
    if toks.len() > 0 {
        lemma_len_counts_bound(toks.drop_last());
        let m = len_counts(toks.drop_last());
        let l0 = canon(toks.last()).len() as u64;
        assert forall|l: u64| 0 <= #[trigger] map_count(len_counts(toks), l) <= toks.len() by {
            if l == l0 {
                let v = map_count(m, l0) + 1;
                assert(0 <= map_count(m, l0) <= toks.len() - 1);
                assert(map_count(len_counts(toks), l) == v as usize as int);
                if v > usize::MAX {
                    assert(v as usize <= usize::MAX < v <= toks.len());
                }
            } else {
                assert(map_count(len_counts(toks), l) == map_count(m, l));
            }
        }
    }
}

/// What the extractor promises of a page record built from `html` for the
/// page whose normalized URL text is `full` and whose path is `path`.
pub open spec fn is_extract_of(
    b: BenfordStats,
    html: Seq<char>,
    full: Seq<char>,
    path: Seq<char>,
) -> bool {
    &&& b.url@ == full
    &&& (forall|u: Seq<char>| b.child_urls.deep_view().contains(u) <==> is_child(html, full, path, u))
    &&& (forall|j1: int, j2: int|
        0 <= j1 < j2 < b.child_urls@.len() ==> b.child_urls.deep_view()[j1]
            != b.child_urls.deep_view()[j2])
    &&& (forall|d: int|
        1 <= d <= 9 ==> b.freq_start.0[d - 1] == count_start(numeric_tokens(html), d))
    &&& (forall|d: int| 1 <= d <= 9 ==> b.freq_end.0[d - 1] == count_end(numeric_tokens(html), d))
    &&& b.size_freq@ == len_counts(numeric_tokens(html))
}

/// Gets all useful data from the HTML acquired by the URL: the child-URL
/// set, the two digit histograms and the length multiset.
pub fn get_data(html: &str, url: &UrlParts) -> (r: BenfordStats)
    ensures
        is_extract_of(r, html@, url.full@, url.path@),
{
    let ghost all = numeric_tokens(html@);
    let mut result = BenfordStats::default();
    result.url = url.full.clone();
    result.child_urls = get_links(html, url);
    let toks = crate::tokens::find_numeric_tokens(html);
    let tn: usize = toks.len();
    let mut j: usize = 0;
    proof {
        assert(all.take(0) =~= Seq::<Seq<char>>::empty());
    }
    while j < tn
        invariant
            j <= tn,
            tn == toks@.len(),
            toks.deep_view() == all,
            all == numeric_tokens(html@),
            result.url@ == url.full@,
            forall|u: Seq<char>|
                result.child_urls.deep_view().contains(u) <==> is_child(
                    html@,
                    url.full@,
                    url.path@,
                    u,
                ),
            forall|j1: int, j2: int|
                0 <= j1 < j2 < result.child_urls@.len() ==> result.child_urls.deep_view()[j1]
                    != result.child_urls.deep_view()[j2],
            forall|d: int|
                1 <= d <= 9 ==> result.freq_start.0[d - 1] == count_start(all.take(j as int), d),
            forall|d: int|
                1 <= d <= 9 ==> result.freq_end.0[d - 1] == count_end(all.take(j as int), d),
            result.size_freq@ == len_counts(all.take(j as int)),
        decreases tn - j,
    {
        let ghost taken = all.take(j as int);
        let ghost cur = all[j as int];
        proof {
            assert(toks.deep_view()[j as int] == toks@[j as int]@);
            assert(all.take(j + 1).drop_last() =~= taken);
            assert(all.take(j + 1).last() == cur);
        }
        let tok = toks[j].clone();
        let num = treat_number(tok);
        let ln: usize = num.as_str().unicode_len();
        proof {
            assert(num@ == canon(cur));
            lemma_len_counts_bound(taken);
            assert(result.size_freq.spec_multiplicity(ln as u64) == map_count(
                len_counts(taken),
                ln as u64,
            ));
        }
        result.size_freq.insert(ln as u64);
        proof {
            assert((canon(cur).len() as u64) == (ln as u64));
            assert(len_counts(all.take(j + 1)) == len_counts(taken).insert(
                ln as u64,
                (map_count(len_counts(taken), ln as u64) + 1) as usize,
            ));
        }
        if ln > 0 {
            let first = num.as_str().get_char(0);
            let v1 = first as u32;
            proof {
                assert(v1 as int == digit_val(canon(cur).first()) + 48);
                lemma_count_start_bound(taken, v1 as int - 48);
            }
            if 49 <= v1 && v1 <= 57 {
                result.add((v1 - 48) as usize, FreqType::Start);
            }
            let last = num.as_str().get_char(ln - 1);
            let v2 = last as u32;
            proof {
                assert(v2 as int == digit_val(canon(cur).last()) + 48);
                lemma_count_end_bound(taken, v2 as int - 48);
            }
            if 49 <= v2 && v2 <= 57 {
                result.add((v2 - 48) as usize, FreqType::End);
            }
        }
        proof {
            assert forall|d: int| 1 <= d <= 9 implies result.freq_start.0[d - 1]
                == #[trigger] count_start(all.take(j + 1), d) by {
                assert(count_start(all.take(j + 1), d) == count_start(taken, d) + (if canon(
                    cur,
                ).len() > 0 && digit_val(canon(cur).first()) == d {
                    1int
                } else {
                    0int
                }));
            }
            assert forall|d: int| 1 <= d <= 9 implies result.freq_end.0[d - 1]
                == #[trigger] count_end(all.take(j + 1), d) by {
                assert(count_end(all.take(j + 1), d) == count_end(taken, d) + (if canon(
                    cur,
                ).len() > 0 && digit_val(canon(cur).last()) == d {
                    1int
                } else {
                    0int
                }));
            }
        }
        j += 1;
    }
    proof {
        assert(all.take(tn as int) =~= all);
    }
    result
}

} // verus!
