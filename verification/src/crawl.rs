//! The depth-bounded crawl engine. A `Crawler` owns one chunk of the
//! frontier and descends depth-first: it hands out the next URL to fetch,
//! takes back the fetched body (or a failure), extracts the page, queues
//! the page's children one level deeper while the budget lasts, and
//! accumulates the report. The driver performs the fetches; every
//! decision in between is verified. A URL handed out is settled exactly
//! once, as one success or one failure, so `success + fail` always equals
//! the number of URLs dequeued; with a zero budget nothing is ever handed
//! out at all.

use crate::links::parse_url;
use crate::links::url_parse_spec;
use crate::process::get_data;
use crate::process::is_extract_of;
use crate::stats::Stats;
use vstd::prelude::*;

verus! {

/// One level of the depth-first descent: URLs waiting to be fetched,
/// whose children would get one budget level less.
struct Frame {
    pending: Vec<String>,
    depth: usize,
}

/// The URL most recently handed out for fetching, with the budget its
/// children will get.
struct Awaiting {
    url: String,
    child_depth: usize,
}

spec fn pending_total(frames: Seq<Frame>) -> int
    decreases frames.len(),
{
    if frames.len() == 0 {
        0
    } else {
        pending_total(frames.drop_last()) + frames.last().pending@.len()
    }
}

spec fn pending_urls_of(frames: Seq<Frame>) -> Seq<Seq<char>>
    decreases frames.len(),
{
    if frames.len() == 0 {
        Seq::empty()
    } else {
        pending_urls_of(frames.drop_last()) + frames.last().pending.deep_view()
    }
}

proof fn lemma_pending_total_nonneg(frames: Seq<Frame>)
    ensures
        pending_total(frames) >= 0,
    decreases frames.len(),
{
    if frames.len() > 0 {
        lemma_pending_total_nonneg(frames.drop_last());
    }
}

pub struct Crawler {
    frames: Vec<Frame>,
    awaiting: Option<Awaiting>,
    /// The report accumulated so far.
    pub report: Stats,
}

impl Crawler {
    /// The report accumulated so far, as the contracts speak of it.
    pub closed spec fn spec_report(self) -> Stats {
        self.report
    }

    /// Every queued level still has budget: URLs whose remaining depth is
    /// zero are never queued, only discovered.
    pub closed spec fn wf(self) -> bool {
        forall|i: int| 0 <= i < self.frames@.len() ==> self.frames@[i].depth >= 1
    }

    /// No URL is out for fetching.
    pub closed spec fn ready(self) -> bool {
        self.awaiting is None
    }

    /// How many URLs still wait to be handed out.
    pub closed spec fn pending_count(self) -> int {
        pending_total(self.frames@)
    }

    /// The URLs still waiting to be handed out, later-discovered pages
    /// first at the back: the crawl is depth-first.
    pub closed spec fn pending_urls(self) -> Seq<Seq<char>> {
        pending_urls_of(self.frames@)
    }

    /// The URL out for fetching, if any.
    pub closed spec fn awaiting_url(self) -> Option<Seq<char>> {
        match self.awaiting {
            Some(a) => Some(a.url@),
            None => None,
        }
    }

    /// The depth budget the children of the URL out for fetching would
    /// get.
    pub closed spec fn awaiting_child_depth(self) -> int {
        match self.awaiting {
            Some(a) => a.child_depth as int,
            None => 0,
        }
    }

    /// Nothing is pending and nothing is out: the crawl is over.
    pub open spec fn done(self) -> bool {
        self.ready() && self.pending_count() == 0
    }

    /// Start a crawl of `links` with `depth` levels of budget. With a
    /// zero budget the crawl is done at once: depth-limited URLs are
    /// never fetched.
    pub fn start(links: Vec<String>, depth: usize) -> (c: Crawler)
        ensures
            c.wf(),
            c.ready(),
            c.spec_report().success == 0,
            c.spec_report().fail == 0,
            c.spec_report().url_stats@ == Seq::<crate::stats::BenfordStats>::empty(),
            c.pending_count() == if depth == 0 {
                0int
            } else {
                links@.len() as int
            },
            c.pending_urls() == if depth == 0 {
                Seq::<Seq<char>>::empty()
            } else {
                links.deep_view()
            },
            depth == 0 ==> c.done(),
    {
        let mut frames: Vec<Frame> = Vec::new();
        if depth > 0 {
            frames.push(Frame { pending: links, depth });
        }
        let c = Crawler { frames, awaiting: None, report: Stats::new(None) };
        proof {
            if depth > 0 {
                assert(c.frames@.len() == 1);
                assert(c.frames@.last().pending@ == links@);
                assert(c.frames@.drop_last() =~= Seq::<Frame>::empty());
                assert(pending_total(c.frames@.drop_last()) == 0);
                assert(pending_urls_of(c.frames@.drop_last()) =~= Seq::<Seq<char>>::empty());
                assert(c.frames@.last().pending.deep_view() =~= links.deep_view());
                assert(c.pending_urls() =~= links.deep_view());
            } else {
                assert(pending_total(c.frames@) == 0);
                assert(c.pending_urls() =~= Seq::<Seq<char>>::empty());
            }
        }
        c
    }

    /// Hand out the next URL to fetch, or report that the crawl is over.
    /// A handed-out URL must be settled with `on_fetch` before the next
    /// one.
    pub fn next_url(&mut self) -> (r: Option<String>)
        requires
            old(self).wf(),
            old(self).ready(),
        ensures
            final(self).wf(),
            final(self).spec_report() == old(self).spec_report(),
            r is None <==> old(self).pending_count() == 0,
            match r {
                None => final(self).done() && final(self).pending_urls() == old(
                    self,
                ).pending_urls(),
                Some(u) => {
                    &&& final(self).awaiting_url() == Some(u@)
                    &&& final(self).awaiting_child_depth() >= 0
                    &&& final(self).pending_count() == old(self).pending_count() - 1
                    &&& old(self).pending_urls().len() > 0
                    &&& u@ == old(self).pending_urls().last()
                    &&& final(self).pending_urls() == old(self).pending_urls().drop_last()
                },
            },
    {
        while self.frames.len() > 0 && self.frames[self.frames.len() - 1].pending.len() == 0
            invariant
                self.wf(),
                self.ready(),
                self.report == old(self).report,
                self.pending_count() == old(self).pending_count(),
                self.pending_urls() == old(self).pending_urls(),
            decreases self.frames.len(),
        {
            let ghost prev = self.frames@;
            self.frames.pop();
            proof {
                assert(self.frames@ =~= prev.drop_last());
                assert(prev.last().pending.deep_view() =~= Seq::<Seq<char>>::empty());
                assert(pending_urls_of(prev.drop_last()) + prev.last().pending.deep_view()
                    =~= pending_urls_of(prev.drop_last()));
            }
        }
        if self.frames.len() == 0 {
            proof {
                assert(pending_total(self.frames@) == 0);
            }
            return None;
        }
        proof {
            lemma_pending_total_nonneg(self.frames@.drop_last());
            assert(self.frames@.last().pending@.len() > 0);
        }
        let ghost prev = self.frames@;
        let mut top = match self.frames.pop() {
            Some(f) => f,
            None => unreached(),
        };
        proof {
            assert(self.frames@ =~= prev.drop_last());
            assert(top == prev.last());
        }
        let ghost full_pending = top.pending.deep_view();
        let url = match top.pending.pop() {
            Some(u) => u,
            None => unreached(),
        };
        proof {
            assert(top.pending.deep_view() =~= full_pending.drop_last());
            assert(url@ == full_pending.last());
            assert(pending_urls_of(prev) == pending_urls_of(prev.drop_last()) + full_pending);
            assert(pending_urls_of(prev).last() == full_pending.last());
        }
        let child_depth: usize = top.depth - 1;
        let out = url.clone();
        let ghost mid = self.frames@;
        if top.pending.len() > 0 {
            self.frames.push(top);
            proof {
                assert(self.frames@.drop_last() =~= mid);
                assert(self.pending_urls() =~= pending_urls_of(prev).drop_last());
            }
        } else {
            proof {
                assert(top.pending.deep_view() =~= Seq::<Seq<char>>::empty());
                assert(self.pending_urls() =~= pending_urls_of(prev).drop_last());
            }
        }
        self.awaiting = Some(Awaiting { url, child_depth });
        Some(out)
    }

    /// Settle the URL handed out last: `None` for a failed fetch, or the
    /// fetched page body. A body whose URL no longer re-validates counts
    /// as one failure; otherwise the page is extracted, appended to the
    /// report as one success, and its children are queued one level
    /// deeper — unless that level is zero, in which case they are only
    /// discovered, never fetched.
    pub fn on_fetch(&mut self, body: Option<String>)
        requires
            old(self).wf(),
            old(self).awaiting_url() is Some,
            old(self).spec_report().success < u128::MAX,
            old(self).spec_report().fail < u128::MAX,
        ensures
            final(self).wf(),
            final(self).ready(),
            final(self).spec_report().success + final(self).spec_report().fail == old(
                self,
            ).spec_report().success + old(self).spec_report().fail + 1,
            match body {
                None => {
                    &&& final(self).spec_report().fail == old(self).spec_report().fail + 1
                    &&& final(self).spec_report().success == old(self).spec_report().success
                    &&& final(self).spec_report().url_stats@ == old(self).spec_report().url_stats@
                    &&& final(self).pending_count() == old(self).pending_count()
                    &&& final(self).pending_urls() == old(self).pending_urls()
                },
                Some(html) => match url_parse_spec(old(self).awaiting_url()->Some_0) {
                    None => {
                        &&& final(self).spec_report().fail == old(self).spec_report().fail + 1
                        &&& final(self).spec_report().success == old(self).spec_report().success
                        &&& final(self).spec_report().url_stats@ == old(
                            self,
                        ).spec_report().url_stats@
                        &&& final(self).pending_count() == old(self).pending_count()
                        &&& final(self).pending_urls() == old(self).pending_urls()
                    },
                    Some(parts) => {
                        let page = final(self).spec_report().url_stats@.last();
                        &&& final(self).spec_report().success == old(self).spec_report().success
                            + 1
                        &&& final(self).spec_report().fail == old(self).spec_report().fail
                        &&& final(self).spec_report().url_stats@ == old(
                            self,
                        ).spec_report().url_stats@.push(page)
                        &&& is_extract_of(page, html@, parts.0, parts.1)
                        &&& final(self).pending_count() == old(self).pending_count() + (if old(
                            self,
                        ).awaiting_child_depth() >= 1 {
                            page.child_urls@.len() as int
                        } else {
                            0int
                        })
                        &&& final(self).pending_urls() == old(self).pending_urls() + (if old(
                            self,
                        ).awaiting_child_depth() >= 1 {
                            page.child_urls.deep_view()
                        } else {
                            Seq::<Seq<char>>::empty()
                        })
                    },
                },
            },
    {
        let (url, child_depth): (String, usize) = match &self.awaiting {
            Some(a) => (a.url.clone(), a.child_depth),
            None => unreached(),
        };
        self.awaiting = None;
        match body {
            None => {
                self.report.fail();
            },
            Some(html) => {
                match parse_url(url.as_str()) {
                    None => {
                        self.report.fail();
                    },
                    Some(parts) => {
                        let data = get_data(html.as_str(), &parts);
                        let ghost mid = self.frames@;
                        if child_depth >= 1 && data.child_urls.len() > 0 {
                            let pending = clone_string_vec(&data.child_urls);
                            proof {
                                assert(pending.deep_view() =~= data.child_urls.deep_view());
                            }
                            self.frames.push(Frame { pending, depth: child_depth });
                            proof {
                                assert(self.frames@.drop_last() =~= mid);
                                assert(self.pending_urls() == pending_urls_of(mid)
                                    + data.child_urls.deep_view());
                            }
                        } else {
                            proof {
                                if child_depth >= 1 {
                                    assert(data.child_urls.deep_view()
                                        =~= Seq::<Seq<char>>::empty());
                                }
                                assert(pending_urls_of(mid) + Seq::<Seq<char>>::empty()
                                    =~= pending_urls_of(mid));
                            }
                        }
                        self.report.add(data);
                    },
                }
            },
        }
    }
}

fn clone_string_vec(v: &Vec<String>) -> (r: Vec<String>)
    ensures
        r@ == v@,
{
    let mut r: Vec<String> = Vec::new();
    let n: usize = v.len();
    let mut i: usize = 0;
    while i < n
        invariant
            i <= n,
            n == v@.len(),
            r@ == v@.take(i as int),
        decreases n - i,
    {
        r.push(v[i].clone());
        proof {
            assert(v@.take(i + 1) =~= v@.take(i as int).push(v@[i as int]));
        }
        i += 1;
    }
    proof {
        assert(v@.take(n as int) =~= v@);
    }
    r
}

} // verus!
