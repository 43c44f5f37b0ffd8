//! Per-page digit statistics and the crawl report that aggregates them:
//! two nine-bucket digit histograms (first and last digit of each canonical
//! number, digits 1 through 9), a multiset of canonical lengths, and
//! success / failure counters with additive merge semantics.

use crate::bag::Bag;
use vstd::prelude::*;

verus! {

/// The aggregate crawl report: every successfully processed page's
/// statistics, plus how many fetches succeeded and how many failed.
pub struct Stats {
    pub url_stats: Vec<BenfordStats>,
    pub success: u128,
    pub fail: u128,
}

impl Stats {
    /// An empty report. The capacity is only a size hint for the page list.
    pub fn new(capacity: Option<usize>) -> (r: Self)
        ensures
            r.url_stats@ == Seq::<BenfordStats>::empty(),
            r.success == 0,
            r.fail == 0,
    {
        Self { url_stats: Vec::with_capacity(capacity.unwrap_or(32)), success: 0, fail: 0 }
    }

    /// Record one successfully processed page: append its statistics and
    /// count one success.
    pub fn add(&mut self, stats: BenfordStats)
        requires
            old(self).success < u128::MAX,
        ensures
            final(self).url_stats@ == old(self).url_stats@.push(stats),
            final(self).success == old(self).success + 1,
            final(self).fail == old(self).fail,
    {
        self.url_stats.push(stats);
        self.pass();
    }

    /// Combine two reports: counters add, page lists concatenate.
    pub fn merge(self, other: Self) -> (r: Self)
        requires
            self.success + other.success <= u128::MAX,
            self.fail + other.fail <= u128::MAX,
        ensures
            r.success == self.success + other.success,
            r.fail == self.fail + other.fail,
            r.url_stats@ == self.url_stats@ + other.url_stats@,
    {
        let mut merged = self;
        let mut tail = other.url_stats;
        merged.url_stats.append(&mut tail);
        merged.success = merged.success + other.success;
        merged.fail = merged.fail + other.fail;
        merged
    }

    /// Count one failed fetch or failed URL re-validation.
    pub fn fail(&mut self)
        requires
            old(self).fail < u128::MAX,
        ensures
            final(self).fail == old(self).fail + 1,
            final(self).success == old(self).success,
            final(self).url_stats@ == old(self).url_stats@,
    {
        self.fail = self.fail + 1;
    }

    /// Count one successfully processed page.
    pub fn pass(&mut self)
        requires
            old(self).success < u128::MAX,
        ensures
            final(self).success == old(self).success + 1,
            final(self).fail == old(self).fail,
            final(self).url_stats@ == old(self).url_stats@,
    {
        self.success = self.success + 1;
    }
}

/// Which end of a canonical number a digit was read from.
pub enum FreqType {
    Start,
    End,
}

/// A fixed nine-bucket histogram: bucket `d - 1` counts digit `d`, for
/// digits 1 through 9. Digit 0 has no bucket.
pub struct ArrayMap(pub [u128; 9]);

impl ArrayMap {
    /// Add the other histogram into this one, bucket by bucket.
    pub fn merge(&mut self, other: &Self)
        requires
            forall|i: int| 0 <= i < 9 ==> old(self).0[i] + other.0[i] <= u128::MAX,
        ensures
            forall|i: int| 0 <= i < 9 ==> final(self).0[i] == old(self).0[i] + other.0[i],
    {
        let mut i: usize = 0;
        while i < 9
            invariant
                i <= 9,
                forall|j: int| 0 <= j < 9 ==> old(self).0[j] + other.0[j] <= u128::MAX,
                forall|j: int| 0 <= j < i ==> self.0[j] == old(self).0[j] + other.0[j],
                forall|j: int| i <= j < 9 ==> self.0[j] == old(self).0[j],
            decreases 9 - i,
        {
            self.0[i] = self.0[i] + other.0[i];
            i += 1;
        }
    }
}

/// One page's digit statistics: its URL, the child URLs discovered on it,
/// the first-digit and last-digit histograms, and the multiset of
/// canonical-number lengths.
pub struct BenfordStats {
    /// The URL where the stats were taken.
    pub url: String,
    /// The page's child URLs, each absolute and listed once.
    pub child_urls: Vec<String>,
    /// First-digit frequency. Digit 0 is never counted.
    pub freq_start: ArrayMap,
    /// Last-digit frequency. Digit 0 is never counted.
    pub freq_end: ArrayMap,
    /// Maps the length of canonical numbers to their frequency.
    pub size_freq: Bag<u64>,
}

impl BenfordStats {
    /// Count digit `key` in the chosen histogram. A zero key is skipped:
    /// a canonical number cannot start or end in `'0'`, so nothing may
    /// reach bucket 0.
    pub fn add(&mut self, key: usize, freq_type: FreqType)
        requires
            key <= 9,
            key >= 1 ==> match freq_type {
                FreqType::Start => old(self).freq_start.0[key - 1] < u128::MAX,
                FreqType::End => old(self).freq_end.0[key - 1] < u128::MAX,
            },
        ensures
            key == 0 ==> *final(self) == *old(self),
            key >= 1 ==> match freq_type {
                FreqType::Start => {
                    &&& final(self).freq_start.0@ == old(self).freq_start.0@.update(
                        key - 1,
                        (old(self).freq_start.0[key - 1] + 1) as u128,
                    )
                    &&& final(self).freq_end == old(self).freq_end
                },
                FreqType::End => {
                    &&& final(self).freq_end.0@ == old(self).freq_end.0@.update(
                        key - 1,
                        (old(self).freq_end.0[key - 1] + 1) as u128,
                    )
                    &&& final(self).freq_start == old(self).freq_start
                },
            },
            final(self).url == old(self).url,
            final(self).child_urls == old(self).child_urls,
            final(self).size_freq == old(self).size_freq,
    {
        if key == 0 {
            return ;
        }
        match freq_type {
            FreqType::Start => {
                self.freq_start.0[key - 1] = self.freq_start.0[key - 1] + 1;
            },
            FreqType::End => {
                self.freq_end.0[key - 1] = self.freq_end.0[key - 1] + 1;
            },
        }
    }
}

/// The total of bucket `i` of the start-digit histograms of all pages.
pub open spec fn sum_start(pages: Seq<BenfordStats>, i: int) -> int
    decreases pages.len(),
{
    if pages.len() == 0 {
        0
    } else {
        sum_start(pages.drop_last(), i) + pages.last().freq_start.0[i]
    }
}

/// The total of bucket `i` of the end-digit histograms of all pages.
pub open spec fn sum_end(pages: Seq<BenfordStats>, i: int) -> int
    decreases pages.len(),
{
    if pages.len() == 0 {
        0
    } else {
        sum_end(pages.drop_last(), i) + pages.last().freq_end.0[i]
    }
}

proof fn lemma_sum_prefix(pages: Seq<BenfordStats>, k: int, i: int)
    requires
        0 <= k <= pages.len(),
    ensures
        sum_start(pages.take(k), i) <= sum_start(pages, i),
        sum_end(pages.take(k), i) <= sum_end(pages, i),
        0 <= sum_start(pages.take(k), i),
        0 <= sum_end(pages.take(k), i),
    decreases pages.len(),
{
    if k == pages.len() {
        assert(pages.take(k) =~= pages);
        lemma_sum_nonneg(pages, i);
    } else {
        lemma_sum_prefix(pages.drop_last(), k, i);
        assert(pages.drop_last().take(k) =~= pages.take(k));
    }
}

proof fn lemma_sum_nonneg(pages: Seq<BenfordStats>, i: int)
    ensures
        0 <= sum_start(pages, i),
        0 <= sum_end(pages, i),
    decreases pages.len(),
{
    if pages.len() > 0 {
        lemma_sum_nonneg(pages.drop_last(), i);
    }
}

/// The top-level summary: add up the start- and end-digit histograms of
/// every page, bucket by bucket.
pub fn aggregate_histograms(pages: &Vec<BenfordStats>) -> (r: (ArrayMap, ArrayMap))
    requires
        forall|i: int| 0 <= i < 9 ==> sum_start(pages@, i) <= u128::MAX,
        forall|i: int| 0 <= i < 9 ==> sum_end(pages@, i) <= u128::MAX,
    ensures
        forall|i: int| 0 <= i < 9 ==> r.0.0[i] == sum_start(pages@, i),
        forall|i: int| 0 <= i < 9 ==> r.1.0[i] == sum_end(pages@, i),
{
    let mut start = ArrayMap([0; 9]);
    let mut end = ArrayMap([0; 9]);
    let n: usize = pages.len();
    let mut j: usize = 0;
    proof {
        assert forall|i: int| 0 <= i < 9 implies start.0[i] == sum_start(pages@.take(0), i)
            && end.0[i] == sum_end(pages@.take(0), i) by {
            assert(pages@.take(0) =~= Seq::<BenfordStats>::empty());
        }
    }
    while j < n
        invariant
            j <= n,
            n == pages@.len(),
            forall|i: int| 0 <= i < 9 ==> sum_start(pages@, i) <= u128::MAX,
            forall|i: int| 0 <= i < 9 ==> sum_end(pages@, i) <= u128::MAX,
            forall|i: int| 0 <= i < 9 ==> start.0[i] == sum_start(pages@.take(j as int), i),
            forall|i: int| 0 <= i < 9 ==> end.0[i] == sum_end(pages@.take(j as int), i),
        decreases n - j,
    {
        proof {
            assert forall|i: int| 0 <= i < 9 implies start.0[i] + pages@[j as int].freq_start.0[i]
                <= u128::MAX && end.0[i] + pages@[j as int].freq_end.0[i] <= u128::MAX by {
                lemma_sum_prefix(pages@, j + 1, i);
                assert(pages@.take(j + 1).drop_last() =~= pages@.take(j as int));
                assert(pages@.take(j + 1).last() == pages@[j as int]);
            }
        }
        start.merge(&pages[j].freq_start);
        end.merge(&pages[j].freq_end);
        proof {
            assert forall|i: int| 0 <= i < 9 implies start.0[i] == sum_start(
                pages@.take(j + 1),
                i,
            ) && end.0[i] == sum_end(pages@.take(j + 1), i) by {
                assert(pages@.take(j + 1).drop_last() =~= pages@.take(j as int));
                assert(pages@.take(j + 1).last() == pages@[j as int]);
            }
        }
        j += 1;
    }
    proof {
        assert(pages@.take(n as int) =~= pages@);
    }
    (start, end)
}

impl Default for BenfordStats {
    /// A page record with no URL, no children and all counts zero.
    fn default() -> (r: Self)
        ensures
            r.url@ == Seq::<char>::empty(),
            r.child_urls@ == Seq::<String>::empty(),
            forall|i: int| 0 <= i < 9 ==> r.freq_start.0[i] == 0u128,
            forall|i: int| 0 <= i < 9 ==> r.freq_end.0[i] == 0u128,
            r.size_freq@ == Map::<u64, usize>::empty(),
    {
        Self {
            url: String::new(),
            child_urls: Vec::new(),
            freq_start: ArrayMap([0; 9]),
            freq_end: ArrayMap([0; 9]),
            size_freq: Bag::default(),
        }
    }
}

} // verus!
