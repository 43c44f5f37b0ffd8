use benford_crawl::bag::Bag;

#[test]
fn insert_string() {
    let mut set: Bag<String> = Bag::new();
    for _ in 0..10 {
        set.insert("Hello".to_string());
    }

    assert_eq!(set.multiplicity(&"Hello".to_string()), 10);
    assert_eq!(set.multiplicity(&"Hallo".to_string()), 0);
}

#[test]
fn insert_int() {
    let mut set = Bag::new();

    for i in 0..100 {
        set.insert(i % 20);
    }

    assert_eq!(set.multiplicity(&0), 5);
    assert_eq!(set.multiplicity(&11), 5);
    assert_eq!(set.multiplicity(&19), 5);
}

#[test]
fn inner_views_the_counts() {
    let mut set: Bag<u64> = Bag::with_capacity(4);
    set.insert(3);
    set.insert(3);
    set.insert(7);
    assert_eq!(set.inner().get(&3), Some(&2));
    assert_eq!(set.inner().get(&7), Some(&1));
    assert_eq!(set.inner().get(&9), None);
    let map = set.into_inner();
    assert_eq!(map.len(), 2);
}

#[test]
fn default_is_empty() {
    let set: Bag<u64> = Bag::default();
    assert_eq!(set.multiplicity(&0), 0);
}
