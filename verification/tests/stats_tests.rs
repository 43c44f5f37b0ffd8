use benford_crawl::stats::aggregate_histograms;
use benford_crawl::stats::ArrayMap;
use benford_crawl::stats::BenfordStats;
use benford_crawl::stats::FreqType;
use benford_crawl::stats::Stats;

#[test]
fn merge_adds_counters_and_concatenates_pages() {
    let mut a = Stats::new(None);
    a.add(BenfordStats::default());
    a.add(BenfordStats::default());
    a.fail();
    let mut b = Stats::new(Some(4));
    b.add(BenfordStats::default());
    b.fail();
    b.fail();
    let m = a.merge(b);
    assert_eq!(m.success, 3);
    assert_eq!(m.fail, 3);
    assert_eq!(m.url_stats.len(), 3);
}

#[test]
fn pass_and_fail_count_one_each() {
    let mut s = Stats::new(None);
    s.pass();
    s.pass();
    s.fail();
    assert_eq!(s.success, 2);
    assert_eq!(s.fail, 1);
    assert_eq!(s.url_stats.len(), 0);
}

#[test]
fn array_map_merge_sums_buckets() {
    let mut a = ArrayMap([1, 0, 2, 0, 0, 0, 0, 0, 9]);
    let b = ArrayMap([3, 1, 0, 0, 0, 0, 0, 0, 1]);
    a.merge(&b);
    assert_eq!(a.0, [4, 1, 2, 0, 0, 0, 0, 0, 10]);
}

#[test]
fn benford_add_counts_digits_and_skips_zero() {
    let mut b = BenfordStats::default();
    b.add(1, FreqType::Start);
    b.add(1, FreqType::Start);
    b.add(9, FreqType::End);
    b.add(0, FreqType::Start);
    b.add(0, FreqType::End);
    assert_eq!(b.freq_start.0[0], 2);
    assert_eq!(b.freq_end.0[8], 1);
    assert_eq!(b.freq_start.0.iter().sum::<u128>(), 2);
    assert_eq!(b.freq_end.0.iter().sum::<u128>(), 1);
}

#[test]
fn aggregate_sums_over_all_pages() {
    let mut p1 = BenfordStats::default();
    p1.add(1, FreqType::Start);
    p1.add(1, FreqType::Start);
    p1.add(3, FreqType::End);
    let mut p2 = BenfordStats::default();
    p2.add(1, FreqType::Start);
    p2.add(9, FreqType::End);
    let pages = vec![p1, p2];
    let (start, end) = aggregate_histograms(&pages);
    assert_eq!(start.0, [3, 0, 0, 0, 0, 0, 0, 0, 0]);
    assert_eq!(end.0, [0, 0, 1, 0, 0, 0, 0, 0, 1]);
}
